//! What captures promise of their rows, their targets and their files.
use vstd::prelude::*;
use crate::bytes;
use crate::floats;
use crate::kl::KlAccumulator;
use crate::logits;
use crate::logits::{row_parts, rows_agree, LogitError, LogitRow, LogitStore, RowModel};

verus! {

/// The unsigned number in the bytes of a file, the lowest byte first.
pub open spec fn number(b: Seq<u8>, at: int, n: int) -> nat {
    bytes::le_value(b.subrange(at, at + n))
}

/// A capture file begins with four letters, the version one, the size of the vocabulary, how many
/// logits each row keeps and how many rows there are. From byte 32 on the targets follow in four
/// bytes each, and then the rows.
pub proof fn law_files_of_captures(b: &[u8], r: Result<LogitStore, LogitError>)
    requires
        call_ensures(LogitStore::from_bytes, (b,), r),
    ensures
        r matches Ok(s) ==> {
            &&& b@.len() >= 32
            &&& b@.subrange(0, 4) == seq![0x52u8, 0x51, 0x4c, 0x47]
            &&& number(b@, 4, 4) == 1
            &&& s.vocab == number(b@, 8, 4)
            &&& s.top_k == number(b@, 12, 4)
            &&& s.rows@.len() == number(b@, 16, 8)
            &&& s.targets@.len() == s.rows@.len()
        },
        b@.len() < 32 || b@.subrange(0, 4) != seq![0x52u8, 0x51, 0x4c, 0x47] <==> r == Err::<
            LogitStore,
            _,
        >(LogitError::NotAStore),
        b@.len() >= 32 && b@.subrange(0, 4) == seq![0x52u8, 0x51, 0x4c, 0x47] && number(b@, 4, 4)
            != 1 ==> r == Err::<LogitStore, _>(
            LogitError::UnsupportedVersion(number(b@, 4, 4) as u32),
        ),
{
    bytes::lemma_pow256();
    if b@.len() >= 32 {
        bytes::lemma_le_value_bound(b@.subrange(4, 8));
        bytes::lemma_le_value_bound(b@.subrange(8, 12));
        bytes::lemma_le_value_bound(b@.subrange(12, 16));
    }
    if r is Ok {
        assert(r->Ok_0@.rows.len() == r->Ok_0.rows@.len());
    }
}

/// The logits of a row stand one behind the other in four bytes each: those of the whole vocabulary,
/// or first the tokens that are kept, then their logits, and then the log-sum-exp in eight bytes.
pub proof fn law_rows_in_a_file(b: &[u8], s: LogitStore, i: int, j: int)
    requires
        call_ensures(LogitStore::from_bytes, (b,), Ok::<LogitStore, LogitError>(s)),
        0 <= i < s.rows@.len(),
        s.top_k == 0 ==> 0 <= j < s.vocab,
        s.top_k > 0 ==> 0 <= j < s.top_k,
    ensures
        s.targets@[i] == number(b@, 32 + 4 * i, 4),
        ({
            let rows = 32 + 4 * s.rows@.len();
            match s.rows@[i]@ {
                RowModel::Dense(v) => {
                    &&& s.top_k == 0
                    &&& v.len() == s.vocab
                    &&& v[j] == number(b@, rows + i * (4 * s.vocab) + 4 * j, 4)
                },
                RowModel::Sparse { ids, logits: kept, full_lse } => {
                    let at = rows + i * (8 * s.top_k + 8);
                    &&& s.top_k > 0
                    &&& ids.len() == s.top_k && kept.len() == s.top_k
                    &&& ids[j] == number(b@, at + 4 * j, 4)
                    &&& kept[j] == number(b@, at + 4 * s.top_k + 4 * j, 4)
                    &&& full_lse == number(b@, at + 8 * s.top_k, 8)
                },
            }
        }),
{
    let m = logits::read_store(b@)->Ok_0;
    let n = s.rows@.len();
    let size = logits::row_size(s.vocab, s.top_k);
    assert(s@ == m);
    assert(s@.rows.len() == n);
    assert(m.rows.len() == number(b@, 16, 8));
    assert(s@.rows[i] == s.rows@[i]@);
    assert(m.rows[i] == logits::row_at(b@, (32 + 4 * n + i * size) as int, s.vocab, s.top_k));
    bytes::lemma_pow256();
    assert((i + 1) * size <= n * size) by (nonlinear_arith)
        requires
            i + 1 <= n,
            size >= 0,
    ;
    assert((i + 1) * size == i * size + size) by (nonlinear_arith);
    assert(i * size >= 0) by (nonlinear_arith)
        requires
            i >= 0,
            size >= 0,
    ;
    bytes::lemma_le_value_bound(b@.subrange(32 + 4 * i, 32 + 4 * i + 4));
    let at = 32 + 4 * n + i * size;
    if s.top_k == 0 {
        bytes::lemma_le_value_bound(b@.subrange(at + 4 * j, at + 4 * j + 4));
    } else {
        let k = s.top_k as int;
        bytes::lemma_le_value_bound(b@.subrange(at + 4 * j, at + 4 * j + 4));
        bytes::lemma_le_value_bound(b@.subrange(at + 4 * k + 4 * j, at + 4 * k + 4 * j + 4));
        bytes::lemma_le_value_bound(b@.subrange(at + 8 * k, at + 8 * k + 8));
    }
}

/// A row of the whole vocabulary has the logit of every token at the token's place. A row that keeps
/// some tokens has their logits and no others.
pub proof fn law_logits_by_token(row: &LogitRow, token: u32, r: Option<u32>, j: int)
    requires
        call_ensures(LogitRow::logit_of, (row, token), r),
    ensures
        row@ matches RowModel::Dense(v) ==> r == if token < v.len() {
            Some(v[token as int])
        } else {
            None
        },
        row@ matches RowModel::Sparse { ids, logits: kept, .. } ==> {
            &&& !ids.contains(token) ==> r is None
            &&& 0 <= j < ids.len() && ids.len() == kept.len() && ids[j] == token && (forall|a: int|
                0 <= a < j ==> ids[a] != token) ==> r == Some(kept[j])
        },
{
    if let RowModel::Sparse { ids, .. } = row@ {
        lemma_place(ids, token);
    }
}

/// The first place of a token is before every other.
proof fn lemma_place(ids: Seq<u32>, token: u32)
    ensures
        match logits::first_place(ids, token) {
            Some(i) => 0 <= i < ids.len() && ids[i] == token && forall|a: int|
                0 <= a < i ==> ids[a] != token,
            None => !ids.contains(token),
        },
    decreases ids.len(),
{
    if ids.len() > 0 && ids[0] != token {
        let rest = ids.drop_first();
        lemma_place(rest, token);
        match logits::first_place(rest, token) {
            Some(i) => {
                assert(ids[i + 1] == token);
                assert forall|a: int| 0 <= a < i + 1 implies ids[a] != token by {
                    if a > 0 {
                        assert(rest[a - 1] == ids[a]);
                    }
                }
            },
            None => {
                if ids.contains(token) {
                    let a = choose|a: int| 0 <= a < ids.len() && ids[a] == token;
                    assert(rest[a - 1] == token);
                }
            },
        }
    }
}

/// The preferred token of a row of the whole vocabulary has the greatest logit, and it is the last of
/// several; a row that keeps some tokens prefers the first that it keeps.
pub proof fn law_preferred_tokens(row: &LogitRow, r: Option<u32>, i: int)
    requires
        row matches LogitRow::Dense(v) ==> v@.len() <= u32::MAX,
        call_ensures(LogitRow::argmax, (row,), r),
    ensures
        row@ matches RowModel::Sparse { ids, .. } ==> r == if ids.len() == 0 {
            None
        } else {
            Some(ids[0])
        },
        row@ matches RowModel::Dense(v) ==> (r is None <==> v.len() == 0),
        row@ matches RowModel::Dense(v) ==> 0 <= i < v.len() && (forall|j: int|
            0 <= j < v.len() ==> !floats::nan(#[trigger] v[j])) ==> {
            let t = r->0;
            &&& t < v.len()
            &&& !floats::above(v[i], v[t as int])
            &&& i > t ==> floats::above(v[t as int], v[i])
        },
{
    if let RowModel::Dense(v) = row@ {
        if 0 <= i < v.len() && forall|j: int| 0 <= j < v.len() ==> !floats::nan(#[trigger] v[j]) {
            logits::laws::law_argmax_is_greatest(v, i);
            assert(!floats::nan(v[i]));
            assert(!floats::nan(v[logits::last_greatest(v)]));
        }
    }
}

/// Two rows agree where both prefer a token, and the same.
pub proof fn law_rows_agree(
    a: &LogitRow,
    b: &LogitRow,
    x: Option<u32>,
    y: Option<u32>,
    r: bool,
)
    requires
        a matches LogitRow::Dense(v) ==> v@.len() <= u32::MAX,
        b matches LogitRow::Dense(v) ==> v@.len() <= u32::MAX,
        call_ensures(LogitRow::argmax, (a,), x),
        call_ensures(LogitRow::argmax, (b,), y),
        call_ensures(rows_agree, (a, b), r),
    ensures
        r <==> x is Some && x == y,
{
}

/// Floats make rows of the whole vocabulary one behind the other, and each row has its target.
pub proof fn law_rows_of_floats(
    data: &[u32],
    vocab: usize,
    targets: Option<&[u32]>,
    s: LogitStore,
    i: int,
    j: int,
)
    requires
        call_ensures(
            LogitStore::from_dense_f32,
            (data, vocab, targets),
            Ok::<LogitStore, LogitError>(s),
        ),
        0 <= i < s.rows@.len(),
        0 <= j < vocab,
    ensures
        s.rows@.len() * vocab == data@.len(),
        s.top_k == 0,
        s.rows@[i]@ matches RowModel::Dense(v) && v.len() == vocab && v[j] == data@[i * vocab + j],
        targets matches Some(t) ==> t@.len() == s.rows@.len() && s.targets@[i] == t@[i],
        targets is None ==> s.targets@[i] == 0xffff_ffff,
{
    let n = s.rows@.len();
    let v = vocab as int;
    let len = data@.len() as int;
    assert(len == v * (len / v) + len % v) by {
        vstd::arithmetic::div_mod::lemma_fundamental_div_mod(len, v);
    }
    assert(n * v == v * n) by (nonlinear_arith);
    assert((i + 1) * v == i * v + v) by (nonlinear_arith);
    assert(0 <= i * v && (i + 1) * v <= n * v) by (nonlinear_arith)
        requires
            0 <= i,
            i + 1 <= n,
            v >= 0,
    ;
    assert(data@.subrange(i * v, (i + 1) * v)[j] == data@[i * v + j]);
}

/// Floats that make no whole rows are refused, and so is another number of targets than rows.
pub proof fn law_uneven_floats_are_refused(
    data: &[u32],
    vocab: usize,
    targets: Option<&[u32]>,
    r: Result<LogitStore, LogitError>,
)
    requires
        call_ensures(LogitStore::from_dense_f32, (data, vocab, targets), r),
    ensures
        vocab == 0 || data@.len() % vocab as nat != 0 ==> r == Err::<LogitStore, _>(
            (LogitError::NotWholeRows { len: data@.len() as usize, vocab }),
        ),
        vocab > 0 && data@.len() % vocab as nat == 0 && targets is Some && targets->0@.len() * vocab
            != data@.len() ==> (r matches Err(LogitError::TargetCount { .. })),
        vocab > 0 && data@.len() % vocab as nat == 0 && targets is None ==> r is Ok,
{
    if vocab > 0 {
        let v = vocab as int;
        let len = data@.len() as int;
        vstd::arithmetic::div_mod::lemma_fundamental_div_mod(len, v);
        if let Some(t) = targets {
            assert(t@.len() * v == v * t@.len()) by (nonlinear_arith);
        }
    }
}

/// The target of a position is the token that follows, and the greatest 32-bit number stands for
/// none.
pub proof fn law_targets(s: &LogitStore, i: usize, r: Option<u32>)
    requires
        call_ensures(LogitStore::target_at, (s, i), r),
    ensures
        r is Some <==> i < s.targets@.len() && s.targets@[i as int] != 0xffff_ffff,
        r matches Some(t) ==> t == s.targets@[i as int],
{
}

/// The logits of the token that follows are those of both rows, where both have it.
pub proof fn law_logits_of_targets(
    a: &LogitStore,
    b: &LogitStore,
    i: usize,
    t: u32,
    x: Option<u32>,
    y: Option<u32>,
    r: Option<(u32, u32)>,
)
    requires
        i < a.rows@.len(),
        i < b.rows@.len(),
        call_ensures(LogitStore::target_at, (a, i), Some(t)),
        call_ensures(LogitRow::logit_of, (&a.rows@[i as int], t), x),
        call_ensures(LogitRow::logit_of, (&b.rows@[i as int], t), y),
        call_ensures(LogitStore::target_logits, (a, b, i), r),
    ensures
        r is Some <==> x is Some && y is Some,
        r matches Some((p, q)) ==> x == Some(p) && y == Some(q),
{
    assert(a@.rows[i as int] == a.rows@[i as int]@);
    assert(b@.rows[i as int] == b.rows@[i as int]@);
}

/// Captures are compared where they are of one vocabulary and have as many rows; what keeps them
/// apart is told with both numbers.
pub proof fn law_who_can_be_compared(a: &LogitStore, b: &LogitStore, r: Result<(), LogitError>)
    requires
        call_ensures(LogitStore::check_comparable, (a, b), r),
    ensures
        r is Ok <==> a.vocab == b.vocab && a.rows@.len() == b.rows@.len(),
        a.vocab != b.vocab ==> r == Err::<(), _>(
            (LogitError::VocabMismatch { reference: a.vocab, candidate: b.vocab }),
        ),
        a.vocab == b.vocab && a.rows@.len() != b.rows@.len() ==> r == Err::<(), _>(
            (LogitError::RowCountMismatch {
                reference_rows: a.rows@.len() as usize,
                candidate_rows: b.rows@.len() as usize,
            }),
        ),
{
}

/// The divergences that are given are gathered position by position.
pub proof fn law_comparison_takes_every_position(
    a: &LogitStore,
    b: &LogitStore,
    divergences: &[u64],
    acc: KlAccumulator,
)
    requires
        divergences@.len() == a.rows@.len(),
        logits::countable(a@),
        logits::countable(b@),
        call_ensures(
            LogitStore::compare,
            (a, b, divergences),
            Ok::<KlAccumulator, LogitError>(acc),
        ),
    ensures
        acc.values@ == divergences@,
        acc.top1_hits <= a.rows@.len(),
        acc.target_count <= a.rows@.len(),
{
    assert(acc.values@ =~= divergences@);
    lemma_known(a@, b@, a.rows@.len() as int);
}

/// No more targets are known than there are positions.
proof fn lemma_known(a: logits::StoreModel, b: logits::StoreModel, n: int)
    requires
        n >= 0,
    ensures
        logits::known_targets(a, b, n) <= n,
    decreases n,
{
    if n > 0 {
        lemma_known(a, b, n - 1);
    }
}

/// The parts of a row of the whole vocabulary are all tokens with their logits and the log-sum-exp
/// that is given; a row that keeps some tokens has its own.
pub proof fn law_parts_of_rows(
    row: &LogitRow,
    lse: u64,
    ids: Vec<u32>,
    kept: Vec<u32>,
    sum: u64,
    i: int,
)
    requires
        row matches LogitRow::Dense(v) ==> v@.len() <= u32::MAX,
        call_ensures(row_parts, (row, lse), (ids, kept, sum)),
    ensures
        row@ matches RowModel::Dense(v) ==> kept@ == v && sum == lse && ids@.len() == v.len() && (0
            <= i < v.len() ==> ids@[i] == i),
        row@ matches RowModel::Sparse { ids: x, logits: y, full_lse: z } ==> ids@ == x && kept@ == y
            && sum == z,
{
}

/// A row that is cut down to its greatest logits keeps no more than that many, each with its own
/// logit, from the greatest to the smallest.
pub proof fn law_cut_rows(full: &[u32], k: usize, lse: u64, r: LogitRow, i: int, j: int)
    requires
        full@.len() <= u32::MAX,
        forall|i: int| 0 <= i < full@.len() ==> !floats::nan(#[trigger] full@[i]),
        call_ensures(LogitRow::sparsify, (full, k, lse), r),
    ensures
        r@ matches RowModel::Sparse { ids, logits: kept, full_lse } && {
            &&& full_lse == lse
            &&& ids.len() == kept.len()
            &&& k <= full@.len() ==> ids.len() == k
            &&& k > full@.len() ==> ids.len() == full@.len()
            &&& 0 <= i < ids.len() ==> ids[i] < full@.len() && kept[i] == full@[ids[i] as int]
            &&& 0 <= i < j < ids.len() ==> !floats::above(kept[j], kept[i]) && ids[i] != ids[j]
        },
{
    if let RowModel::Sparse { ids, logits: kept, .. } = r@ {
        let keys = logits::falling_keys(full@);
        let o = choose|o: Seq<usize>|
            {
                &&& #[trigger] crate::order::is_stable_order(keys, o)
                &&& ids.len() == if k < full@.len() {
                    k as nat
                } else {
                    full@.len()
                }
                &&& kept.len() == ids.len()
                &&& forall|i: int|
                    0 <= i < ids.len() ==> #[trigger] ids[i] == o[i] && kept[i]
                        == full@[o[i] as int]
            };
        if 0 <= i < ids.len() {
            assert(ids[i] == o[i]);
        }
        if 0 <= i < j < ids.len() {
            assert(ids[i] == o[i] && ids[j] == o[j]);
            assert(keys[o[i] as int] <= keys[o[j] as int]);
        }
    }
}

/// Every error has its message.
pub proof fn law_messages(e: &LogitError, r: &'static str)
    requires
        call_ensures(LogitError::message, (e,), r),
    ensures
        *e == LogitError::NotAStore ==> r@ == "not a RQLG logit store"@,
        *e is UnsupportedVersion ==> r@ == "RQLG version not supported"@,
        *e == LogitError::Truncated ==> r@ == "RQLG truncated"@,
        *e is VocabMismatch ==> r@ == "vocab mismatch: the captures are of different models"@,
        *e is RowCountMismatch ==> r@
            == "row-count mismatch: the captures used different corpora or context lengths"@,
        *e is NotWholeRows ==> r@ == "dense logit dump is not a multiple of the vocabulary"@,
        *e == LogitError::NotWholeFloats ==> r@ == "not a multiple of 4 bytes"@,
        *e is TargetCount ==> r@ == "not one target for each row"@,
        *e is DenseRow ==> r@ == "store declares top_k but holds a dense row"@,
        *e is RowLength ==> r@ == "store declares another top_k than a row holds"@,
{
}

/// Rows are added behind the others, each with its target; a new capture has none.
pub proof fn law_rows_are_added(
    s: &mut LogitStore,
    row: LogitRow,
    target: u32,
    vocab: u32,
    top_k: u32,
    fresh: LogitStore,
)
    requires
        call_ensures(LogitStore::push, (s, row, target), ()),
        call_ensures(LogitStore::new, (vocab, top_k), fresh),
    ensures
        final(s).rows@ == old(s).rows@.push(row),
        final(s).targets@ == old(s).targets@.push(target),
        final(s).vocab == old(s).vocab && final(s).top_k == old(s).top_k,
        fresh.vocab == vocab && fresh.top_k == top_k && fresh.rows@.len() == 0
            && fresh.targets@.len() == 0,
{
}

/// Rows of the whole vocabulary are cut down to so many logits each, with the log-sum-exp that is
/// given for each; targets stay, and nothing changes where all are to be kept.
pub proof fn law_captures_are_cut_down(s: &mut LogitStore, k: usize, lses: &[u64], i: int)
    requires
        call_ensures(LogitStore::sparsify, (s, k, lses), ()),
        0 <= i < old(s).rows@.len(),
        k <= u32::MAX,
    ensures
        k == 0 ==> *final(s) == *old(s),
        k > 0 ==> {
            &&& final(s).top_k == k
            &&& final(s).targets@ == old(s).targets@
            &&& final(s).rows@.len() == old(s).rows@.len()
            &&& old(s).rows@[i]@ is Sparse ==> final(s).rows@[i]@ == old(s).rows@[i]@
            &&& old(s).rows@[i]@ matches RowModel::Dense(v) ==> (final(s).rows@[i]@
                matches RowModel::Sparse { ids, logits: kept, full_lse } && full_lse == lses@[i]
                && ids.len() == kept.len() && ids.len() == if k < v.len() {
                k as nat
            } else {
                v.len()
            })
        },
{
    if k > 0 {
        assert(logits::sparsified(
            old(s).rows@[i]@,
            k as nat,
            lses@[i],
            final(s).rows@[i]@,
        ));
    }
}

/// Of the logits that are kept of a row, equal ones stand in the order of their tokens.
pub proof fn law_equal_logits_keep_their_order(
    full: &[u32],
    k: usize,
    lse: u64,
    r: LogitRow,
    i: int,
    j: int,
)
    requires
        full@.len() <= u32::MAX,
        forall|i: int| 0 <= i < full@.len() ==> !floats::nan(#[trigger] full@[i]),
        call_ensures(LogitRow::sparsify, (full, k, lse), r),
    ensures
        r@ matches RowModel::Sparse { ids, logits: kept, .. } && (0 <= i < j < ids.len() && kept[i]
            == kept[j] ==> ids[i] < ids[j]),
{
    if let RowModel::Sparse { ids, logits: kept, .. } = r@ {
        let keys = logits::falling_keys(full@);
        let o = choose|o: Seq<usize>|
            {
                &&& #[trigger] crate::order::is_stable_order(keys, o)
                &&& ids.len() == if k < full@.len() {
                    k as nat
                } else {
                    full@.len()
                }
                &&& kept.len() == ids.len()
                &&& forall|i: int|
                    0 <= i < ids.len() ==> #[trigger] ids[i] == o[i] && kept[i]
                        == full@[o[i] as int]
            };
        if 0 <= i < j < ids.len() && kept[i] == kept[j] {
            assert(ids[i] == o[i] && ids[j] == o[j]);
            assert(keys[o[i] as int] == keys[o[j] as int]);
        }
    }
}

} // verus!
