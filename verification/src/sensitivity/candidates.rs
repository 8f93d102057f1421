//! The candidates of a measurement: copies of the model with one group of tensors quantized.
use vstd::prelude::*;
use crate::blockfloat::{is_gguf_type, RQ_TYPE_BASE};
use crate::gguf::geometry;
use crate::gguf::geometry::TensorError;
use crate::gguf::laws;
use crate::gguf::reader;
use crate::gguf::reader::{FileModel, GgufReader, TensorInfo};
use crate::gguf::stream;
use crate::gguf::stream::GgufStream;
use crate::gguf::value::GgufError;
use crate::gguf::writer;
use crate::gguf::writer::TensorPlan;
use crate::sensitivity;
use crate::sensitivity::sanitize;

verus! {

/// One candidate: the model with one group at one precision.
#[derive(Debug)]
pub struct Candidate {
    pub id: String,
    pub group: String,
    pub bits: String,
    pub ggml_type: u32,
    pub path: String,
    pub group_bytes: u64,
}

/// More candidates than there may be.
#[derive(Debug, Clone, Copy, PartialEq, Eq, Structural)]
pub struct TooMany {
    pub total: u128,
    pub cap: usize,
}

/// How many candidates there are, each group at each precision; an error where there may not be so
/// many.
pub fn count_candidates(groups: usize, rungs: usize, cap: Option<usize>) -> (r: Result<
    usize,
    TooMany,
>)
    requires
        cap is None ==> groups * rungs <= usize::MAX,
    ensures
        match cap {
            Some(c) => if groups * rungs > c {
                r matches Err(e) && e.total == groups * rungs && e.cap == c
            } else {
                r matches Ok(n) && n == groups * rungs
            },
            None => r matches Ok(n) && n == groups * rungs,
        },
{
    proof {
        assert(groups * rungs <= u64::MAX * u64::MAX) by (nonlinear_arith)
            requires
                groups <= u64::MAX,
                rungs <= u64::MAX,
        ;
    }
    let total: u128 = groups as u128 * rungs as u128;
    match cap {
        Some(c) => if total > c as u128 {
            Err(TooMany { total, cap: c })
        } else {
            Ok(total as usize)
        },
        None => Ok(total as usize),
    }
}

/// The candidates in the order in which they are written, each as the places of its group and of
/// its precision: group by group, and in a group precision by precision. An error where there may
/// not be so many.
pub fn list_candidates(groups: usize, rungs: usize, cap: Option<usize>) -> (r: Result<
    Vec<(usize, usize)>,
    TooMany,
>)
    requires
        cap is None ==> groups * rungs <= usize::MAX,
    ensures
        match r {
            Ok(v) => {
                &&& v@.len() == groups * rungs
                &&& forall|g: int, b: int|
                    0 <= g < groups && 0 <= b < rungs ==> 0 <= #[trigger] place_of(g, b, rungs as int)
                        < v@.len() && v@[place_of(g, b, rungs as int)] == (g as usize, b as usize)
                &&& cap matches Some(c) ==> groups * rungs <= c
            },
            Err(e) => e.total == groups * rungs && cap == Some(e.cap) && groups * rungs > e.cap,
        },
{
    let total: usize = match count_candidates(groups, rungs, cap) {
        Ok(n) => n,
        Err(e) => return Err(e),
    };
    let mut v: Vec<(usize, usize)> = Vec::new();
    let mut g: usize = 0;
    assert(place_of(0, 0, rungs as int) == 0) by (nonlinear_arith);
    while g < groups
        invariant
            g <= groups,
            v@.len() == place_of(g as int, 0, rungs as int),
            forall|a: int, b: int|
                0 <= a < g && 0 <= b < rungs ==> 0 <= #[trigger] place_of(a, b, rungs as int)
                    < v@.len() && v@[place_of(a, b, rungs as int)] == (a as usize, b as usize),
        decreases groups - g,
    {
        let mut b: usize = 0;
        while b < rungs
            invariant
                g < groups,
                b <= rungs,
                v@.len() == place_of(g as int, b as int, rungs as int),
                forall|a: int, c: int|
                    0 <= a < g && 0 <= c < rungs || a == g && 0 <= c < b ==> 0 <= #[trigger]
                    place_of(a, c, rungs as int) < v@.len() && v@[place_of(a, c, rungs as int)] == (
                        a as usize,
                        c as usize,
                    ),
            decreases rungs - b,
        {
            let ghost had = v@;
            v.push((g, b));
            assert forall|a: int, c: int|
                0 <= a < g && 0 <= c < rungs || a == g && 0 <= c < b + 1 implies 0 <= #[trigger]
            place_of(a, c, rungs as int) < v@.len() && v@[place_of(a, c, rungs as int)] == (
                a as usize,
                c as usize,
            ) by {
                if !(a == g && c == b) {
                    assert(v@[place_of(a, c, rungs as int)] == had[place_of(a, c, rungs as int)]);
                }
            }
            b = b + 1;
        }
        assert(place_of(g as int, rungs as int, rungs as int) == place_of(
            g + 1,
            0,
            rungs as int,
        )) by (nonlinear_arith);
        g = g + 1;
    }
    assert(place_of(groups as int, 0, rungs as int) == groups * rungs);
    Ok(v)
}

/// The place of a candidate among all.
pub open spec fn place_of(group: int, rung: int, rungs: int) -> int {
    group * rungs + rung
}

/// The name of a candidate: its group, fit for a name of a file, and its precision.
pub open spec fn id_of(key: Seq<char>, bits: Seq<char>) -> Seq<char> {
    sensitivity::sanitized(key) + "@"@ + bits
}

/// The name of a candidate.
pub fn candidate_id(key: &str, bits: &str) -> (r: String)
    ensures
        r@ == id_of(key@, bits@),
{
    let mut s = sanitize(key);
    s.append("@");
    s.append(bits);
    s
}

/// The type of tensor `i` in a candidate whose first `n` members get these types.
pub open spec fn target_of(
    tensors: Seq<TensorInfo>,
    members: Seq<usize>,
    types: Seq<u32>,
    n: int,
    i: int,
) -> u32
    decreases n,
{
    if n <= 0 {
        tensors[i].ggml_type
    } else if members[n - 1] == i {
        types[n - 1]
    } else {
        target_of(tensors, members, types, n - 1, i)
    }
}

/// The bytes of a tensor in a type.
pub open spec fn size_as(t: TensorInfo, ggml_type: u32) -> Result<u64, GgufError> {
    match geometry::elem_count(t.dims@) {
        None => Err(GgufError::SizeOverflow),
        Some(n) => geometry::packed_size(ggml_type, n as nat),
    }
}

/// The bytes of a tensor in a type.
fn sized(t: &TensorInfo, ggml_type: u32) -> (r: Result<u64, TensorError>)
    ensures
        match size_as(*t, ggml_type) {
            Ok(b) => r matches Ok(x) && x == b,
            Err(k) => r matches Err(e) && e.tensor@ == t.name@ && e.kind == k,
        },
{
    match geometry::count_elems(t.dims.as_slice()) {
        None => Err(TensorError { tensor: t.name.clone(), kind: GgufError::SizeOverflow }),
        Some(n) => geometry::packed_nbytes(ggml_type, n, t.name.as_str()),
    }
}

/// The bytes of the first `n` members in their types.
pub open spec fn group_size(
    tensors: Seq<TensorInfo>,
    members: Seq<usize>,
    types: Seq<u32>,
    n: int,
) -> nat
    decreases n,
{
    if n <= 0 {
        0
    } else {
        group_size(tensors, members, types, n - 1) + match size_as(
            tensors[members[n - 1] as int],
            types[n - 1],
        ) {
            Ok(b) => b as nat,
            Err(_) => 0,
        }
    }
}

/// A candidate to be written.
#[derive(Debug)]
pub struct CandidatePlan {
    /// The type of each tensor.
    pub targets: Vec<u32>,
    pub plans: Vec<TensorPlan>,
    /// The bytes of the group.
    pub group_bytes: u64,
    /// The type of the last tensor of the group.
    pub ggml_type: u32,
}

/// A candidate that cannot be written.
#[derive(Debug)]
pub enum CandidateError {
    /// This tensor cannot have its type.
    Tensor(TensorError),
    /// This tensor was to have a type that no container can name.
    NotGguf { tensor: String, ggml_type: u32 },
    /// The bytes of the group do not fit in 64 bits.
    TooLarge,
}

/// The member `j` is the first that cannot have its type.
pub open spec fn first_bad_member(
    tensors: Seq<TensorInfo>,
    members: Seq<usize>,
    types: Seq<u32>,
    j: int,
) -> bool {
    &&& 0 <= j < members.len()
    &&& size_as(tensors[members[j] as int], types[j]) is Err
    &&& forall|k: int|
        0 <= k < j ==> size_as(tensors[#[trigger] members[k] as int], types[k]) is Ok
}

/// Every member can have its type.
pub open spec fn members_fit(
    tensors: Seq<TensorInfo>,
    members: Seq<usize>,
    types: Seq<u32>,
) -> bool {
    forall|k: int|
        0 <= k < members.len() ==> size_as(tensors[#[trigger] members[k] as int], types[k]) is Ok
}

/// The member `j` is the first with a type that no container can name.
pub open spec fn first_foreign(types: Seq<u32>, j: int) -> bool {
    &&& 0 <= j < types.len()
    &&& types[j] >= RQ_TYPE_BASE
    &&& forall|k: int| 0 <= k < j ==> #[trigger] types[k] < RQ_TYPE_BASE
}

/// A container can name all of these types.
pub open spec fn all_named(types: Seq<u32>) -> bool {
    forall|k: int| 0 <= k < types.len() ==> #[trigger] types[k] < RQ_TYPE_BASE
}

/// The bytes of tensor `i` in a candidate.
pub open spec fn size_at(
    tensors: Seq<TensorInfo>,
    members: Seq<usize>,
    types: Seq<u32>,
    i: int,
) -> Result<u64, GgufError> {
    size_as(tensors[i], target_of(tensors, members, types, members.len() as int, i))
}

/// A candidate in which the members of a group have these types and all other tensors their own.
pub open spec fn is_candidate(
    tensors: Seq<TensorInfo>,
    members: Seq<usize>,
    want: u32,
    types: Seq<u32>,
    c: CandidatePlan,
) -> bool {
    &&& c.targets@.len() == tensors.len()
    &&& c.plans@.len() == tensors.len()
    &&& forall|i: int|
        0 <= i < tensors.len() ==> {
            &&& #[trigger] c.targets@[i] == target_of(
                tensors,
                members,
                types,
                members.len() as int,
                i,
            )
            &&& c.plans@[i]@.name == tensors[i].name@
            &&& c.plans@[i]@.dims == tensors[i].dims@
            &&& c.plans@[i]@.ggml_type == c.targets@[i]
            &&& Ok::<u64, GgufError>(c.plans@[i].nbytes) == size_at(tensors, members, types, i)
        }
    &&& c.group_bytes == group_size(tensors, members, types, members.len() as int)
    &&& c.ggml_type == if members.len() == 0 {
        want
    } else {
        types.last()
    }
}

/// The candidate in which the members of a group have these types, which stand in for `want`. A
/// type that no container can name is refused: its scales would lie in another tensor.
pub fn plan_candidate(tensors: &[TensorInfo], members: &[usize], want: u32, types: &[u32]) -> (r:
    Result<CandidatePlan, CandidateError>)
    requires
        members@.len() == types@.len(),
        forall|j: int| 0 <= j < members@.len() ==> #[trigger] members@[j] < tensors@.len(),
    ensures
        match r {
            Ok(c) => all_named(types@) && members_fit(tensors@, members@, types@) && is_candidate(
                tensors@,
                members@,
                want,
                types@,
                c,
            ),
            Err(CandidateError::NotGguf { tensor, ggml_type }) => exists|j: int|
                {
                    &&& #[trigger] first_foreign(types@, j)
                    &&& tensor@ == tensors@[members@[j] as int].name@
                    &&& ggml_type == types@[j]
                },
            Err(CandidateError::TooLarge) => all_named(types@) && members_fit(
                tensors@,
                members@,
                types@,
            ) && group_size(tensors@, members@, types@, members@.len() as int) > u64::MAX,
            Err(CandidateError::Tensor(e)) => all_named(types@) && {
                ||| exists|j: int|
                    {
                        &&& #[trigger] first_bad_member(tensors@, members@, types@, j)
                        &&& e.tensor@ == tensors@[members@[j] as int].name@
                        &&& size_as(tensors@[members@[j] as int], types@[j]) == Err::<
                            u64,
                            GgufError,
                        >(e.kind)
                    }
                ||| members_fit(tensors@, members@, types@) && exists|i: int|
                    {
                        &&& 0 <= i < tensors@.len()
                        &&& e.tensor@ == tensors@[i].name@
                        &&& #[trigger] size_at(tensors@, members@, types@, i) == Err::<
                            u64,
                            GgufError,
                        >(e.kind)
                        &&& forall|k: int|
                            0 <= k < i ==> #[trigger] size_at(tensors@, members@, types@, k) is Ok
                    }
            },
        },
{
    let n: usize = tensors.len();
    let m: usize = members.len();
    let mut f: usize = 0;
    while f < m
        invariant
            f <= m == members@.len() == types@.len(),
            forall|j: int| 0 <= j < members@.len() ==> #[trigger] members@[j] < tensors@.len(),
            forall|k: int| 0 <= k < f ==> #[trigger] types@[k] < RQ_TYPE_BASE,
        decreases m - f,
    {
        if !is_gguf_type(types[f]) {
            assert(first_foreign(types@, f as int));
            return Err(
                CandidateError::NotGguf {
                    tensor: tensors[members[f]].name.clone(),
                    ggml_type: types[f],
                },
            );
        }
        f = f + 1;
    }
    let mut targets: Vec<u32> = Vec::new();
    let mut i: usize = 0;
    while i < n
        invariant
            i <= n == tensors@.len(),
            targets@.len() == i,
            forall|k: int| 0 <= k < i ==> #[trigger] targets@[k] == tensors@[k].ggml_type,
        decreases n - i,
    {
        targets.push(tensors[i].ggml_type);
        i = i + 1;
    }
    let mut ggml_type: u32 = want;
    let mut sum: u128 = 0;
    let mut j: usize = 0;
    while j < m
        invariant
            j <= m == members@.len() == types@.len(),
            all_named(types@),
            n == tensors@.len() == targets@.len(),
            forall|j: int| 0 <= j < members@.len() ==> #[trigger] members@[j] < tensors@.len(),
            forall|k: int|
                0 <= k < n ==> #[trigger] targets@[k] == target_of(
                    tensors@,
                    members@,
                    types@,
                    j as int,
                    k,
                ),
            forall|k: int|
                0 <= k < j ==> size_as(tensors@[#[trigger] members@[k] as int], types@[k]) is Ok,
            sum == group_size(tensors@, members@, types@, j as int),
            sum <= j * u64::MAX,
            ggml_type == if j == 0 {
                want
            } else {
                types@[j - 1]
            },
        decreases m - j,
    {
        let at: usize = members[j];
        targets.set(at, types[j]);
        ggml_type = types[j];
        match sized(&tensors[at], types[j]) {
            Ok(b) => {
                proof {
                    assert(j * u64::MAX + u64::MAX <= u128::MAX) by (nonlinear_arith)
                        requires
                            j <= u64::MAX,
                    ;
                    assert((j + 1) * u64::MAX == j * u64::MAX + u64::MAX);
                }
                sum = sum + b as u128;
            },
            Err(e) => {
                assert(first_bad_member(tensors@, members@, types@, j as int));
                return Err(CandidateError::Tensor(e));
            },
        }
        j = j + 1;
    }
    if sum > u64::MAX as u128 {
        return Err(CandidateError::TooLarge);
    }
    let mut plans: Vec<TensorPlan> = Vec::new();
    let mut k: usize = 0;
    while k < n
        invariant
            k <= n == tensors@.len() == targets@.len() == plans@.len() + (n - k),
            all_named(types@),
            members_fit(tensors@, members@, types@),
            forall|i: int|
                0 <= i < n ==> #[trigger] targets@[i] == target_of(
                    tensors@,
                    members@,
                    types@,
                    members@.len() as int,
                    i,
                ),
            forall|i: int|
                0 <= i < k ==> {
                    &&& (#[trigger] plans@[i])@.name == tensors@[i].name@
                    &&& plans@[i]@.dims == tensors@[i].dims@
                    &&& plans@[i]@.ggml_type == targets@[i]
                    &&& Ok::<u64, GgufError>(plans@[i].nbytes) == size_at(
                        tensors@,
                        members@,
                        types@,
                        i,
                    )
                },
        decreases n - k,
    {
        let t = &tensors[k];
        match sized(t, targets[k]) {
            Ok(nbytes) => {
                plans.push(
                    TensorPlan {
                        name: t.name.clone(),
                        dims: vstd::slice::slice_to_vec(t.dims.as_slice()),
                        ggml_type: targets[k],
                        nbytes,
                    },
                );
            },
            Err(e) => {
                proof {
                    assert(size_at(tensors@, members@, types@, k as int) == Err::<u64, GgufError>(
                        e.kind,
                    ));
                    assert forall|i: int| 0 <= i < k implies #[trigger] size_at(
                        tensors@,
                        members@,
                        types@,
                        i,
                    ) is Ok by {
                        let p = plans@[i];
                        assert(Ok::<u64, GgufError>(p.nbytes) == size_at(
                            tensors@,
                            members@,
                            types@,
                            i,
                        ));
                    }
                }
                return Err(CandidateError::Tensor(e));
            },
        }
        k = k + 1;
    }
    let c = CandidatePlan { targets, plans, group_bytes: sum as u64, ggml_type };
    assert forall|i: int| 0 <= i < tensors@.len() implies ({
        &&& #[trigger] c.targets@[i] == target_of(
            tensors@,
            members@,
            types@,
            members@.len() as int,
            i,
        )
        &&& c.plans@[i]@.name == tensors@[i].name@
        &&& c.plans@[i]@.dims == tensors@[i].dims@
        &&& c.plans@[i]@.ggml_type == c.targets@[i]
        &&& Ok::<u64, GgufError>(c.plans@[i].nbytes) == size_at(tensors@, members@, types@, i)
    }) by {
        let p = plans@[i];
        assert(p@.name == tensors@[i].name@);
    }
    Ok(c)
}

/// What a tensor becomes in a candidate.
#[derive(Debug)]
pub enum CandidateStep<'a> {
    /// It keeps its bytes.
    Copy(&'a [u8]),
    /// It is quantized.
    Quantize { ggml_type: u32, rows: usize, cols: usize },
}

/// What tensor `i` becomes in a candidate with these types: its own bytes where it keeps its type,
/// quantized otherwise.
pub fn candidate_step<'a>(file: &GgufReader<'a>, targets: &[u32], i: usize) -> (r: Result<
    CandidateStep<'a>,
    TensorError,
>)
    requires
        i < file.tensors@.len(),
        targets@.len() == file.tensors@.len(),
    ensures
        ({
            let t = file.tensors@[i as int];
            if targets@[i as int] == t.ggml_type {
                match reader::tensor_data(file.data@, file.data_offset, t@) {
                    Ok(b) => r matches Ok(CandidateStep::Copy(x)) && x@ == b,
                    Err(k) => r matches Err(e) && e.tensor@ == t.name@ && e.kind == k,
                }
            } else {
                &&& r matches Ok(CandidateStep::Quantize { ggml_type, rows, cols })
                &&& ggml_type == targets@[i as int]
                &&& (rows, cols) == shape_of(t.dims@)
            }
        }),
{
    let t = &file.tensors[i];
    if targets[i] == t.ggml_type {
        return match file.tensor_bytes(i) {
            Ok(b) => Ok(CandidateStep::Copy(b)),
            Err(e) => Err(e),
        };
    }
    let (rows, cols) = t.rows_cols();
    Ok(CandidateStep::Quantize { ggml_type: targets[i], rows, cols })
}

/// Begins a candidate: the metadata of the model pair by pair as they stand in it, its alignment and
/// its version, and the headers of the candidate's tensors. Nothing where the bytes of the file
/// cannot be counted in 64 bits.
pub fn start_candidate(file: &GgufReader<'_>, plans: Vec<TensorPlan>) -> (r: Option<
    (Vec<u8>, GgufStream),
>)
    requires
        geometry::aligned(
            writer::header(
                file@.kv,
                writer::plans_model(plans@),
                file.alignment as nat,
                file.version,
            ).len(),
            file.alignment as nat,
        ) <= u64::MAX,
    ensures
        ({
            let ps = writer::plans_model(plans@);
            let a = file.alignment as nat;
            let head = writer::padded_header(file@.kv, ps, a, file.version);
            if head.len() + writer::body_len(ps, a) > u64::MAX {
                r is None
            } else {
                &&& r matches Some((h, s))
                &&& h@ == head
                &&& s@ == stream::begun(file@.kv, ps, a, file.version)
                &&& s.wf()
            }
        }),
{
    GgufStream::start(file.kv.as_slice(), plans, file.alignment, file.version)
}

/// Rows and columns of a tensor: its two outer dimensions, one row for a vector, nothing for a
/// scalar.
pub open spec fn shape_of(dims: Seq<u64>) -> (usize, usize) {
    if dims.len() == 0 {
        (0usize, 0usize)
    } else if dims.len() == 1 {
        (1usize, dims[0] as usize)
    } else {
        (dims[0] as usize, dims[1] as usize)
    }
}

/// A candidate differs from the model in one group only: every other tensor keeps its type.
pub proof fn law_other_tensors_keep_their_type(
    tensors: Seq<TensorInfo>,
    members: Seq<usize>,
    types: Seq<u32>,
    n: int,
    i: int,
)
    requires
        0 <= n <= members.len(),
        forall|j: int| 0 <= j < members.len() ==> #[trigger] members[j] != i,
    ensures
        target_of(tensors, members, types, n, i) == tensors[i].ggml_type,
    decreases n,
{
    if n > 0 {
        assert(members[n - 1] != i);
        law_other_tensors_keep_their_type(tensors, members, types, n - 1, i);
    }
}

/// A candidate of a model whose types a container can name has only such types.
pub proof fn law_candidates_have_gguf_types(
    tensors: Seq<TensorInfo>,
    members: Seq<usize>,
    want: u32,
    types: Seq<u32>,
    c: CandidatePlan,
    i: int,
)
    requires
        members.len() == types.len(),
        all_named(types),
        is_candidate(tensors, members, want, types, c),
        0 <= i < tensors.len(),
        tensors[i].ggml_type < RQ_TYPE_BASE,
    ensures
        c.plans@[i]@.ggml_type < RQ_TYPE_BASE,
{
    lemma_target_named(tensors, members, types, members.len() as int, i);
    assert(c.plans@[i]@.ggml_type == c.targets@[i]);
}

/// The type of a tensor in a candidate is its own or one of the group's.
proof fn lemma_target_named(
    tensors: Seq<TensorInfo>,
    members: Seq<usize>,
    types: Seq<u32>,
    n: int,
    i: int,
)
    requires
        0 <= n <= members.len() == types.len(),
        all_named(types),
        tensors[i].ggml_type < RQ_TYPE_BASE,
    ensures
        target_of(tensors, members, types, n, i) < RQ_TYPE_BASE,
    decreases n,
{
    if n > 0 {
        lemma_target_named(tensors, members, types, n - 1, i);
        assert(types[n - 1] < RQ_TYPE_BASE);
    }
}

/// A candidate that was written is read back as the model but for one group: with the version, the
/// alignment and the metadata that the model has, pair by pair; every tensor with its name and its
/// dimensions, those of the group with the types of the candidate; and every tensor outside the
/// group with the type and the bytes that it has in the model.
pub proof fn law_unchanged_tensors_keep_their_bytes(
    file: GgufReader<'_>,
    members: Seq<usize>,
    want: u32,
    types: Seq<u32>,
    c: CandidatePlan,
    datas: Seq<Seq<u8>>,
    i: int,
)
    requires
        reader::read_file(file.data@) == Ok::<FileModel, GgufError>(file@),
        is_candidate(file.tensors@, members, want, types, c),
        laws::writable(
            file@.kv,
            writer::plans_model(c.plans@),
            file.alignment as nat,
            file.version,
        ),
        datas.len() == c.plans@.len(),
        forall|j: int| 0 <= j < datas.len() ==> (#[trigger] datas[j]).len() == c.plans@[j].nbytes,
        0 <= i < file.tensors@.len(),
        forall|j: int| 0 <= j < members.len() ==> #[trigger] members[j] != i,
        reader::tensor_data(file.data@, file.data_offset, file.tensors@[i]@) == Ok::<
            Seq<u8>,
            GgufError,
        >(datas[i]),
    ensures
        ({
            let plans = writer::plans_model(c.plans@);
            let out = writer::file_bytes(
                file@.kv,
                plans,
                datas,
                file.alignment as nat,
                file.version,
            );
            let t = file.tensors@[i];
            &&& reader::read_file(out) matches Ok(m)
            &&& m.version == file.version
            &&& m.alignment == file.alignment
            &&& m.kv == file@.kv
            &&& m.tensors.len() == file.tensors@.len()
            &&& forall|j: int|
                0 <= j < file.tensors@.len() ==> {
                    &&& (#[trigger] m.tensors[j]).name == file.tensors@[j].name@
                    &&& m.tensors[j].dims == file.tensors@[j].dims@
                    &&& m.tensors[j].ggml_type == c.targets@[j]
                }
            &&& m.tensors[i].ggml_type == t.ggml_type
            &&& reader::tensor_data(out, m.data_offset, m.tensors[i]) == reader::tensor_data(
                file.data@,
                file.data_offset,
                t@,
            )
        }),
{
    let plans = writer::plans_model(c.plans@);
    let t = file.tensors@[i];
    law_other_tensors_keep_their_type(
        file.tensors@,
        members,
        types,
        members.len() as int,
        i,
    );
    if writer::unstated(file@.kv) {
        laws::lemma_no_alignment_is_default(file@.kv);
    }
    assert forall|j: int| 0 <= j < datas.len() implies (#[trigger] plans[j]).nbytes
        == datas[j].len() by {
        assert(datas[j].len() == c.plans@[j].nbytes);
    }
    assert(c.targets@[i] == t.ggml_type);
    assert(Ok::<u64, GgufError>(c.plans@[i].nbytes) == size_as(t, t.ggml_type));
    assert(datas[i].len() == c.plans@[i].nbytes);
    laws::law_file_reads_back(file@.kv, plans, datas, file.alignment as nat, file.version);
    let infos = writer::placed(plans, file.alignment as nat);
    assert forall|j: int| 0 <= j < file.tensors@.len() implies {
        &&& (#[trigger] infos[j]).name == file.tensors@[j].name@
        &&& infos[j].dims == file.tensors@[j].dims@
        &&& infos[j].ggml_type == c.targets@[j]
    } by {
        assert(plans[j] == c.plans@[j]@);
        assert(c.targets@[j] == c.plans@[j]@.ggml_type);
    }
}

} // verus!
