//! Where the bytes of converted tensors come from.
use vstd::prelude::*;
use vstd::utf8::*;

verus! {

/// How the bytes of a tensor are made.
#[derive(Debug)]
pub enum Payload {
    /// The bytes of another tensor.
    Copy { source: String },
    /// For each expert its rows of `gate_proj`, then its rows of `up_proj`.
    GateUp { gate: String, up: String, experts: usize, expert_intermediate: usize, hidden: usize },
    /// For each expert its columns of the down projection, multiplied by the number of experts.
    Down {
        source: String,
        experts: usize,
        hidden: usize,
        intermediate: usize,
        expert_intermediate: usize,
    },
    Zeros,
    /// Random numbers between minus and plus the amplitude, which is held by its bits.
    RandomRouter { seed: u64, amplitude: u32 },
}

/// What a [`Payload`] stands for.
pub enum PayloadModel {
    Copy { source: Seq<char> },
    GateUp {
        gate: Seq<char>,
        up: Seq<char>,
        experts: usize,
        expert_intermediate: usize,
        hidden: usize,
    },
    Down {
        source: Seq<char>,
        experts: usize,
        hidden: usize,
        intermediate: usize,
        expert_intermediate: usize,
    },
    Zeros,
    RandomRouter { seed: u64, amplitude: u32 },
}

impl View for Payload {
    type V = PayloadModel;

    open spec fn view(&self) -> PayloadModel {
        match self {
            Payload::Copy { source } => PayloadModel::Copy { source: source@ },
            Payload::GateUp { gate, up, experts, expert_intermediate, hidden } => PayloadModel::GateUp {
                gate: gate@,
                up: up@,
                experts: *experts,
                expert_intermediate: *expert_intermediate,
                hidden: *hidden,
            },
            Payload::Down {
                source,
                experts,
                hidden,
                intermediate,
                expert_intermediate,
            } => PayloadModel::Down {
                source: source@,
                experts: *experts,
                hidden: *hidden,
                intermediate: *intermediate,
                expert_intermediate: *expert_intermediate,
            },
            Payload::Zeros => PayloadModel::Zeros,
            Payload::RandomRouter { seed, amplitude } => PayloadModel::RandomRouter {
                seed: *seed,
                amplitude: *amplitude,
            },
        }
    }
}

/// The single-precision bits of the router's amplitude, two hundredths.
pub const ROUTER_AMPLITUDE_BITS: u32 = 0x3ca3_d70a;

/// The FNV-1a hash of `b`.
pub open spec fn fnv1a(b: Seq<u8>) -> u64
    decreases b.len(),
{
    if b.len() == 0 {
        0xcbf2_9ce4_8422_2325
    } else {
        let h = fnv1a(b.drop_last()) ^ (b.last() as u64);
        ((h as nat * 0x100_0000_01b3) % 0x1_0000_0000_0000_0000) as u64
    }
}

/// The seed that belongs to a name: its hash, or one where that is zero.
pub open spec fn seed_of(name: Seq<char>) -> u64 {
    let h = fnv1a(encode_utf8(name));
    if h == 0 {
        1
    } else {
        h
    }
}

/// The seed that belongs to a name. It depends on nothing else.
pub fn stable_seed(name: &str) -> (r: u64)
    ensures
        r == seed_of(name@),
        r != 0,
{
    let b = name.as_bytes();
    let n: usize = b.len();
    let mut h: u64 = 0xcbf2_9ce4_8422_2325;
    let mut i: usize = 0;
    assert(b@.subrange(0, 0) =~= Seq::<u8>::empty());
    while i < n
        invariant
            i <= n == b@.len(),
            h == fnv1a(b@.subrange(0, i as int)),
        decreases n - i,
    {
        let ghost longer = b@.subrange(0, i + 1);
        assert(longer.drop_last() =~= b@.subrange(0, i as int));
        assert(longer.last() == b@[i as int]);
        h = (h ^ (b[i] as u64)).wrapping_mul(0x100_0000_01b3);
        i = i + 1;
    }
    assert(b@.subrange(0, n as int) =~= b@);
    if h == 0 {
        1
    } else {
        h
    }
}

/// The state behind `s` in the sequence of random numbers.
pub open spec fn next_state(s: u64) -> u64 {
    let a = s ^ (s << 13);
    let b = a ^ (a >> 7);
    b ^ (b << 17)
}

/// The next state, and the 24 bits of it that make a random number between zero and one.
pub fn step(s: u64) -> (r: (u64, u32))
    ensures
        r.0 == next_state(s),
        r.1 == next_state(s) >> 40,
{
    let a: u64 = s ^ (s << 13);
    let b: u64 = a ^ (a >> 7);
    let c: u64 = b ^ (b << 17);
    assert(c >> 40 <= 0xff_ffff) by (bit_vector);
    (c, (c >> 40) as u32)
}

/// The `k`-th state behind `seed`.
pub open spec fn state_at(seed: u64, k: nat) -> u64
    decreases k,
{
    if k == 0 {
        seed
    } else {
        next_state(state_at(seed, (k - 1) as nat))
    }
}

/// The random numbers of a seed, each by its 24 bits.
pub fn random_units(seed: u64, count: usize) -> (r: Vec<u32>)
    ensures
        r@.len() == count,
        forall|k: int| 0 <= k < count ==> #[trigger] r@[k] == state_at(seed, (k + 1) as nat) >> 40,
{
    let mut out: Vec<u32> = Vec::new();
    let mut state: u64 = seed;
    let mut i: usize = 0;
    while i < count
        invariant
            i <= count,
            out@.len() == i,
            state == state_at(seed, i as nat),
            forall|k: int| 0 <= k < i ==> #[trigger] out@[k] == state_at(seed, (k + 1) as nat) >> 40,
        decreases count - i,
    {
        let (next, unit) = step(state);
        state = next;
        out.push(unit);
        i = i + 1;
    }
    out
}

/// A sequence of random numbers that does not begin with zero never reaches it.
pub proof fn law_random_state_not_zero(s: u64)
    requires
        s != 0,
    ensures
        next_state(s) != 0,
{
    assert(s != 0 ==> s ^ (s << 13) != 0) by (bit_vector);
    let a = s ^ (s << 13);
    assert(a != 0 ==> a ^ (a >> 7) != 0) by (bit_vector);
    let b = a ^ (a >> 7);
    assert(b != 0 ==> b ^ (b << 17) != 0) by (bit_vector);
}

/// Where byte `k` of the packed gate and up projections comes from: whether out of `up_proj` rather
/// than `gate_proj`, and from which place in it. Expert by expert there are `group` bytes of
/// `gate_proj` and then `group` bytes of `up_proj`.
pub open spec fn gate_up_place(group: int, k: int) -> (bool, int) {
    let e = k / (2 * group);
    let j = k % (2 * group);
    if j < group {
        (false, e * group + j)
    } else {
        (true, e * group + (j - group))
    }
}

/// Byte `k` of the packed gate and up projections.
pub open spec fn gate_up_byte(gate: Seq<u8>, up: Seq<u8>, group: int, k: int) -> u8 {
    let (of_up, at) = gate_up_place(group, k);
    if of_up {
        up[at]
    } else {
        gate[at]
    }
}

/// The packed gate and up projections of `experts` experts with `group` bytes of each.
pub fn pack_gate_up(gate: &[u8], up: &[u8], experts: usize, group: usize) -> (r: Vec<u8>)
    requires
        experts * group <= gate@.len(),
        experts * group <= up@.len(),
    ensures
        r@.len() == 2 * (experts * group),
        forall|k: int|
            0 <= k < r@.len() ==> #[trigger] r@[k] == gate_up_byte(gate@, up@, group as int, k),
{
    let mut out: Vec<u8> = Vec::new();
    let glen: usize = gate.len();
    let mut e: usize = 0;
    assert(0 * group == 0) by (nonlinear_arith);
    while e < experts
        invariant
            e <= experts,
            glen == gate@.len(),
            experts * group <= gate@.len(),
            experts * group <= up@.len(),
            out@.len() == 2 * (e * group),
            forall|k: int|
                0 <= k < out@.len() ==> #[trigger] out@[k] == gate_up_byte(
                    gate@,
                    up@,
                    group as int,
                    k,
                ),
        decreases experts - e,
    {
        assert((e + 1) * group == e * group + group) by (nonlinear_arith);
        assert((e + 1) * group <= experts * group) by (nonlinear_arith)
            requires
                e + 1 <= experts,
                group >= 0,
        ;
        assert(0 <= e * group) by (nonlinear_arith)
            requires
                e >= 0,
                group >= 0,
        ;
        let start: usize = e * group;
        let ghost base = out@.len();
        let mut j: usize = 0;
        while j < group
            invariant
                j <= group,
                glen == gate@.len(),
                start == e * group,
                start + group <= gate@.len(),
                start + group <= up@.len(),
                base == 2 * (e * group),
                out@.len() == base + j,
                forall|k: int|
                    0 <= k < out@.len() ==> #[trigger] out@[k] == gate_up_byte(
                        gate@,
                        up@,
                        group as int,
                        k,
                    ),
            decreases group - j,
        {
            proof {
                lemma_place(e as int, group as int, j as int);
            }
            out.push(gate[start + j]);
            j = j + 1;
        }
        let mut j: usize = 0;
        while j < group
            invariant
                j <= group,
                glen == gate@.len(),
                start == e * group,
                start + group <= gate@.len(),
                start + group <= up@.len(),
                base == 2 * (e * group),
                out@.len() == base + group + j,
                forall|k: int|
                    0 <= k < out@.len() ==> #[trigger] out@[k] == gate_up_byte(
                        gate@,
                        up@,
                        group as int,
                        k,
                    ),
            decreases group - j,
        {
            proof {
                lemma_place(e as int, group as int, group + j);
            }
            out.push(up[start + j]);
            j = j + 1;
        }
        e = e + 1;
    }
    out
}

/// Where byte `j` of the pair of expert `e` stands.
pub proof fn lemma_place(e: int, group: int, j: int)
    requires
        0 <= e,
        0 <= j < 2 * group,
    ensures
        (2 * (e * group) + j) / (2 * group) == e,
        (2 * (e * group) + j) % (2 * group) == j,
{
    assert(e * (2 * group) == 2 * (e * group)) by (nonlinear_arith);
    vstd::arithmetic::div_mod::lemma_fundamental_div_mod_converse(
        2 * (e * group) + j,
        2 * group,
        e,
        j,
    );
}

/// Where byte `k` of the experts' down projections comes from: expert by expert and row by row the
/// `part` bytes of the expert's columns, out of rows of `row` bytes.
pub open spec fn down_place(hidden: int, row: int, part: int, k: int) -> int {
    let line = k / part;
    line % hidden * row + line / hidden * part + k % part
}

/// Byte `k` of the experts' down projections before they are scaled.
pub open spec fn down_byte(src: Seq<u8>, hidden: int, row: int, part: int, k: int) -> u8 {
    src[down_place(hidden, row, part, k)]
}

/// How far the experts' columns reach: to the end of the last expert's columns in the last row.
pub open spec fn down_reach(experts: int, hidden: int, row: int, part: int) -> int {
    if experts <= 0 || hidden <= 0 {
        0
    } else {
        (hidden - 1) * row + experts * part
    }
}

/// The experts' down projections before they are scaled, out of `hidden` rows of `row` bytes.
pub fn gather_down(src: &[u8], experts: usize, hidden: usize, row: usize, part: usize) -> (r: Vec<
    u8,
>)
    requires
        down_reach(experts as int, hidden as int, row as int, part as int) <= src@.len(),
    ensures
        r@.len() == experts * hidden * part,
        forall|k: int|
            0 <= k < r@.len() ==> #[trigger] r@[k] == down_byte(
                src@,
                hidden as int,
                row as int,
                part as int,
                k,
            ),
{
    let mut out: Vec<u8> = Vec::new();
    let total: usize = src.len();
    let mut e: usize = 0;
    assert(0 * hidden * part == 0) by (nonlinear_arith);
    while e < experts
        invariant
            e <= experts,
            total == src@.len(),
            down_reach(experts as int, hidden as int, row as int, part as int) <= total,
            out@.len() == e * hidden * part,
            forall|k: int|
                0 <= k < out@.len() ==> #[trigger] out@[k] == down_byte(
                    src@,
                    hidden as int,
                    row as int,
                    part as int,
                    k,
                ),
        decreases experts - e,
    {
        let mut h: usize = 0;
        assert((e * hidden + 0) * part == e * hidden * part) by (nonlinear_arith);
        while h < hidden
            invariant
                h <= hidden,
                e < experts,
                total == src@.len(),
                down_reach(experts as int, hidden as int, row as int, part as int) <= total,
                out@.len() == (e * hidden + h) * part,
                forall|k: int|
                    0 <= k < out@.len() ==> #[trigger] out@[k] == down_byte(
                        src@,
                        hidden as int,
                        row as int,
                        part as int,
                        k,
                    ),
            decreases hidden - h,
        {
            proof {
                assert(h * row + e * part + part <= (hidden - 1) * row + experts * part)
                    by (nonlinear_arith)
                    requires
                        h <= hidden - 1,
                        e + 1 <= experts,
                        row >= 0,
                        part >= 0,
                ;
                assert(0 <= h * row) by (nonlinear_arith)
                    requires
                        h >= 0,
                        row >= 0,
                ;
                assert(0 <= e * part) by (nonlinear_arith)
                    requires
                        e >= 0,
                        part >= 0,
                ;
            }
            let start: usize = h * row + e * part;
            let ghost line = e * hidden + h;
            let ghost base = out@.len();
            let mut j: usize = 0;
            while j < part
                invariant
                    j <= part,
                    h < hidden,
                    total == src@.len(),
                    start == h * row + e * part,
                    start + part <= total,
                    line == e * hidden + h,
                    base == line * part,
                    line >= 0,
                    out@.len() == base + j,
                    forall|k: int|
                        0 <= k < out@.len() ==> #[trigger] out@[k] == down_byte(
                            src@,
                            hidden as int,
                            row as int,
                            part as int,
                            k,
                        ),
                decreases part - j,
            {
                proof {
                    vstd::arithmetic::div_mod::lemma_fundamental_div_mod_converse(
                        base + j,
                        part as int,
                        line,
                        j as int,
                    );
                    vstd::arithmetic::div_mod::lemma_fundamental_div_mod_converse(
                        line,
                        hidden as int,
                        e as int,
                        h as int,
                    );
                }
                out.push(src[start + j]);
                j = j + 1;
            }
            assert((e * hidden + h + 1) * part == (e * hidden + h) * part + part) by (nonlinear_arith);
            h = h + 1;
        }
        assert((e * hidden + hidden) * part == (e + 1) * hidden * part) by (nonlinear_arith);
        e = e + 1;
    }
    out
}

/// Every byte of the dense gate and up projections comes to stand in exactly one place of the
/// packed ones: nothing is lost and nothing is doubled.
pub proof fn law_gate_up_is_a_rearrangement(experts: int, group: int, of_up: bool, at: int)
    requires
        group > 0,
        0 <= at < experts * group,
    ensures
        exists|k: int|
            0 <= k < 2 * (experts * group) && #[trigger] gate_up_place(group, k) == (of_up, at),
        forall|k: int, l: int|
            0 <= k && 0 <= l && #[trigger] gate_up_place(group, k) == (of_up, at)
                && #[trigger] gate_up_place(group, l) == (of_up, at) ==> k == l,
{
    let e = at / group;
    let j = at % group;
    vstd::arithmetic::div_mod::lemma_fundamental_div_mod(at, group);
    lemma_below(at, experts, group);
    let offset = if of_up {
        group + j
    } else {
        j
    };
    let k = 2 * (e * group) + offset;
    assert(at == e * group + j) by (nonlinear_arith)
        requires
            at == group * e + j,
    ;
    lemma_place(e, group, offset);
    assert(gate_up_place(group, k) == (of_up, at));
    assert(0 <= e * group <= experts * group - group) by (nonlinear_arith)
        requires
            0 <= e <= experts - 1,
            group > 0,
    ;
    assert forall|k: int, l: int|
        0 <= k && 0 <= l && #[trigger] gate_up_place(group, k) == (of_up, at)
            && #[trigger] gate_up_place(group, l) == (of_up, at) implies k == l by {
        lemma_gate_up_back(group, k, of_up, at);
        lemma_gate_up_back(group, l, of_up, at);
    }
}

/// The place that a byte comes from tells where it stands.
proof fn lemma_gate_up_back(group: int, k: int, of_up: bool, at: int)
    requires
        group > 0,
        0 <= k,
        gate_up_place(group, k) == (of_up, at),
    ensures
        k == 2 * (at / group * group) + at % group + (if of_up {
            group
        } else {
            0
        }),
{
    let pair = 2 * group;
    let e = k / pair;
    let j = k % pair;
    vstd::arithmetic::div_mod::lemma_fundamental_div_mod(k, pair);
    vstd::arithmetic::div_mod::lemma_mod_bound(k, pair);
    let inner = if of_up {
        j - group
    } else {
        j
    };
    vstd::arithmetic::div_mod::lemma_fundamental_div_mod_converse(at, group, e, inner);
    assert(pair * e == 2 * (e * group)) by (nonlinear_arith)
        requires
            pair == 2 * group,
    ;
}

/// A number below a product has a quotient below the factor.
proof fn lemma_below(x: int, n: int, d: int)
    requires
        d > 0,
        0 <= x < n * d,
    ensures
        0 <= x / d < n,
{
    vstd::arithmetic::div_mod::lemma_fundamental_div_mod(x, d);
    let q = x / d;
    let r = x % d;
    assert(q < n) by (nonlinear_arith)
        requires
            x == d * q + r,
            x < n * d,
            r >= 0,
            d > 0,
    ;
    assert(q >= 0) by (nonlinear_arith)
        requires
            q == x / d,
            x >= 0,
            d > 0,
    ;
}

/// Every byte of the dense down projection comes to stand in exactly one place of the experts'
/// projections: nothing is lost and nothing is doubled.
pub proof fn law_down_is_a_rearrangement(experts: int, hidden: int, part: int, at: int)
    requires
        part > 0,
        experts > 0,
        0 <= at < hidden * (experts * part),
    ensures
        exists|k: int|
            0 <= k < experts * hidden * part && #[trigger] down_place(
                hidden,
                experts * part,
                part,
                k,
            ) == at,
        forall|k: int, l: int|
            0 <= k < experts * hidden * part && 0 <= l < experts * hidden * part
                && #[trigger] down_place(hidden, experts * part, part, k) == at
                && #[trigger] down_place(hidden, experts * part, part, l) == at ==> k == l,
{
    let row = experts * part;
    assert(row > 0) by (nonlinear_arith)
        requires
            row == experts * part,
            experts > 0,
            part > 0,
    ;
    let h = at / row;
    let c = at % row;
    vstd::arithmetic::div_mod::lemma_fundamental_div_mod(at, row);
    vstd::arithmetic::div_mod::lemma_mod_bound(at, row);
    lemma_below(at, hidden, row);
    let e = c / part;
    let j = c % part;
    vstd::arithmetic::div_mod::lemma_fundamental_div_mod(c, part);
    vstd::arithmetic::div_mod::lemma_mod_bound(c, part);
    lemma_below(c, experts, part);
    let line = e * hidden + h;
    let k = line * part + j;
    assert(0 <= line < experts * hidden) by (nonlinear_arith)
        requires
            line == e * hidden + h,
            0 <= e <= experts - 1,
            0 <= h < hidden,
    ;
    assert(0 <= k < experts * hidden * part) by (nonlinear_arith)
        requires
            k == line * part + j,
            0 <= line <= experts * hidden - 1,
            0 <= j < part,
    ;
    vstd::arithmetic::div_mod::lemma_fundamental_div_mod_converse(k, part, line, j);
    vstd::arithmetic::div_mod::lemma_fundamental_div_mod_converse(line, hidden, e, h);
    assert(h * row == row * h && e * part == part * e) by (nonlinear_arith);
    assert(down_place(hidden, row, part, k) == at);
    assert forall|k: int, l: int|
        0 <= k < experts * hidden * part && 0 <= l < experts * hidden * part && #[trigger] down_place(
            hidden,
            row,
            part,
            k,
        ) == at && #[trigger] down_place(hidden, row, part, l) == at implies k == l by {
        lemma_down_back(experts, hidden, part, k);
        lemma_down_back(experts, hidden, part, l);
    }
}

/// The place that a byte comes from tells where it stands.
proof fn lemma_down_back(experts: int, hidden: int, part: int, k: int)
    requires
        part > 0,
        hidden > 0,
        experts > 0,
        0 <= k < experts * hidden * part,
    ensures
        ({
            let row = experts * part;
            let at = down_place(hidden, row, part, k);
            k == (at % row / part * hidden + at / row) * part + at % row % part
        }),
{
    let row = experts * part;
    let line = k / part;
    let j = k % part;
    let h = line % hidden;
    let e = line / hidden;
    let at = down_place(hidden, row, part, k);
    vstd::arithmetic::div_mod::lemma_fundamental_div_mod(k, part);
    vstd::arithmetic::div_mod::lemma_mod_bound(k, part);
    lemma_below(k, experts * hidden, part);
    vstd::arithmetic::div_mod::lemma_fundamental_div_mod(line, hidden);
    vstd::arithmetic::div_mod::lemma_mod_bound(line, hidden);
    lemma_below(line, experts, hidden);
    let c = e * part + j;
    assert(0 <= c < row) by (nonlinear_arith)
        requires
            c == e * part + j,
            row == experts * part,
            0 <= e <= experts - 1,
            0 <= j < part,
    ;
    vstd::arithmetic::div_mod::lemma_fundamental_div_mod_converse(at, row, h, c);
    vstd::arithmetic::div_mod::lemma_fundamental_div_mod_converse(c, part, e, j);
    assert(hidden * e == e * hidden && part * line == line * part) by (nonlinear_arith);
}

} // verus!
