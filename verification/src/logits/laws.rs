//! What reading gives back of writing a capture.
use vstd::prelude::*;
use crate::bytes;
use crate::floats;
use crate::kl;
use crate::kl::KlAccumulator;
use crate::logits;
use crate::logits::{LogitError, RowModel, StoreModel};
use crate::order;
use crate::words;

verus! {

/// A capture in which every row is as the header says, with one target for each row.
pub open spec fn well_formed(m: StoreModel) -> bool {
    &&& m.targets.len() == m.rows.len()
    &&& m.rows.len() <= u64::MAX
    &&& forall|i: int| 0 <= i < m.rows.len() ==> row_fits(#[trigger] m.rows[i], m.vocab, m.top_k)
}

/// A row as the header says.
pub open spec fn row_fits(row: RowModel, vocab: u32, top_k: u32) -> bool {
    match row {
        RowModel::Dense(v) => top_k == 0 && v.len() == vocab,
        RowModel::Sparse { ids, logits, .. } => top_k != 0 && ids.len() == top_k && logits.len()
            == top_k,
    }
}

/// Rows as the header says take the same bytes each, and each stands in its place.
proof fn lemma_rows_bytes(rows: Seq<RowModel>, vocab: u32, top_k: u32)
    requires
        forall|i: int| 0 <= i < rows.len() ==> row_fits(#[trigger] rows[i], vocab, top_k),
    ensures
        logits::rows_bytes(rows).len() == rows.len() * logits::row_size(vocab, top_k),
        forall|i: int|
            0 <= i < rows.len() ==> bytes::stands_at(
                logits::rows_bytes(rows),
                i * logits::row_size(vocab, top_k),
                logits::row_bytes(#[trigger] rows[i]),
            ),
    decreases rows.len(),
{
    let size = logits::row_size(vocab, top_k);
    if rows.len() > 0 {
        let before = rows.drop_last();
        let n = rows.len();
        assert forall|i: int| 0 <= i < before.len() implies row_fits(
            #[trigger] before[i],
            vocab,
            top_k,
        ) by {
            assert(before[i] == rows[i]);
        }
        lemma_rows_bytes(before, vocab, top_k);
        assert(row_fits(rows[n - 1], vocab, top_k));
        lemma_row_len(rows.last(), vocab, top_k);
        let all = logits::rows_bytes(rows);
        assert(n * size == (n - 1) * size + size) by (nonlinear_arith)
            requires
                n >= 1,
        ;
        assert forall|i: int| 0 <= i < n implies bytes::stands_at(
            all,
            i * size,
            logits::row_bytes(#[trigger] rows[i]),
        ) by {
            if i < n - 1 {
                assert(before[i] == rows[i]);
                let part = logits::rows_bytes(before);
                let e = logits::row_bytes(before[i]);
                assert(bytes::stands_at(part, i * size, e));
                assert(all.subrange(i * size, i * size + e.len()) =~= part.subrange(
                    i * size,
                    i * size + e.len(),
                ));
            } else {
                let e = logits::row_bytes(rows.last());
                assert(all.subrange(i * size, i * size + e.len()) =~= e);
            }
        }
    } else {
        assert(0 * size == 0);
    }
}

/// The bytes of a row as the header says.
proof fn lemma_row_len(row: RowModel, vocab: u32, top_k: u32)
    requires
        row_fits(row, vocab, top_k),
    ensures
        logits::row_bytes(row).len() == logits::row_size(vocab, top_k),
{
    match row {
        RowModel::Dense(v) => {
            words::lemma_words_bytes(v);
        },
        RowModel::Sparse { ids, logits, full_lse } => {
            words::lemma_words_bytes(ids);
            words::lemma_words_bytes(logits);
            bytes::lemma_le_bytes_len(full_lse as nat, 8);
        },
    }
}

/// A row is read back from its bytes.
proof fn lemma_row_roundtrip(b: Seq<u8>, pos: int, row: RowModel, vocab: u32, top_k: u32)
    requires
        row_fits(row, vocab, top_k),
        bytes::stands_at(b, pos, logits::row_bytes(row)),
    ensures
        logits::row_at(b, pos, vocab, top_k) == row,
{
    match row {
        RowModel::Dense(v) => {
            words::lemma_words_roundtrip(b, pos, v);
        },
        RowModel::Sparse { ids, logits, full_lse } => {
            let (x, y, z) = (
                words::words_bytes(ids),
                words::words_bytes(logits),
                bytes::le_bytes(full_lse as nat, 8),
            );
            words::lemma_words_bytes(ids);
            words::lemma_words_bytes(logits);
            bytes::lemma_le_bytes_len(full_lse as nat, 8);
            bytes::lemma_stands_split(b, pos, x + y, z);
            bytes::lemma_stands_split(b, pos, x, y);
            words::lemma_words_roundtrip(b, pos, ids);
            words::lemma_words_roundtrip(b, pos + 4 * top_k, logits);
            bytes::lemma_pow256();
            bytes::lemma_le_roundtrip(full_lse as nat, 8);
        },
    }
}

/// The header is read back from its bytes.
proof fn lemma_header(vocab: u32, top_k: u32, n: nat, rest: Seq<u8>)
    requires
        n <= u64::MAX,
    ensures
        ({
            let h = logits::header_bytes(vocab, top_k, n);
            let b = h + rest;
            &&& h.len() == 32
            &&& b.subrange(0, 4) == logits::magic()
            &&& bytes::le_value(b.subrange(4, 8)) == 1
            &&& bytes::le_value(b.subrange(8, 12)) == vocab
            &&& bytes::le_value(b.subrange(12, 16)) == top_k
            &&& bytes::le_value(b.subrange(16, 24)) == n
        }),
{
    let h = logits::header_bytes(vocab, top_k, n);
    let b = h + rest;
    bytes::lemma_le_bytes_len(1, 4);
    bytes::lemma_le_bytes_len(vocab as nat, 4);
    bytes::lemma_le_bytes_len(top_k as nat, 4);
    bytes::lemma_le_bytes_len(n, 8);
    bytes::lemma_le_bytes_len(0, 8);
    bytes::lemma_pow256();
    bytes::lemma_le_roundtrip(1, 4);
    bytes::lemma_le_roundtrip(vocab as nat, 4);
    bytes::lemma_le_roundtrip(top_k as nat, 4);
    bytes::lemma_le_roundtrip(n, 8);
    assert(b.subrange(0, 4) =~= logits::magic());
    assert(b.subrange(4, 8) =~= bytes::le_bytes(1, 4));
    assert(b.subrange(8, 12) =~= bytes::le_bytes(vocab as nat, 4));
    assert(b.subrange(12, 16) =~= bytes::le_bytes(top_k as nat, 4));
    assert(b.subrange(16, 24) =~= bytes::le_bytes(n, 8));
}

/// A capture is read back as it was written.
pub proof fn law_store_reads_back(m: StoreModel)
    requires
        well_formed(m),
    ensures
        logits::read_store(logits::store_bytes(m)) == Ok::<StoreModel, LogitError>(m),
{
    let n = m.rows.len();
    let size = logits::row_size(m.vocab, m.top_k);
    let h = logits::header_bytes(m.vocab, m.top_k, n);
    let t = words::words_bytes(m.targets);
    let r = logits::rows_bytes(m.rows);
    let b = logits::store_bytes(m);
    lemma_header(m.vocab, m.top_k, n, t + r);
    assert(b =~= h + (t + r));
    words::lemma_words_bytes(m.targets);
    lemma_rows_bytes(m.rows, m.vocab, m.top_k);
    assert(b.subrange(32, 32 + t.len() as int) =~= t);
    words::lemma_words_roundtrip(b, 32, m.targets);
    let got = logits::read_store(b)->Ok_0;
    assert forall|i: int| 0 <= i < n implies #[trigger] got.rows[i] == m.rows[i] by {
        let e = logits::row_bytes(m.rows[i]);
        assert(bytes::stands_at(r, i * size, e));
        assert(0 <= i * size) by (nonlinear_arith)
            requires
                i >= 0,
                size >= 0,
        ;
        let at = 32 + 4 * n + i * size;
        assert(b.subrange(at, at + e.len()) =~= r.subrange(i * size, i * size + e.len()));
        lemma_row_roundtrip(b, at, m.rows[i], m.vocab, m.top_k);
    }
    assert(got.rows =~= m.rows);
}

/// Only numbers: the row's greatest logit is nowhere exceeded, and exceeds every later one.
pub proof fn law_argmax_is_greatest(v: Seq<u32>, i: int)
    requires
        0 <= i < v.len(),
        forall|j: int| 0 <= j < v.len() ==> !floats::nan(#[trigger] v[j]),
    ensures
        0 <= logits::last_greatest(v) < v.len(),
        floats::rank(v[i]) <= floats::rank(v[logits::last_greatest(v)]),
        i > logits::last_greatest(v) ==> floats::rank(v[i]) < floats::rank(
            v[logits::last_greatest(v)],
        ),
    decreases v.len(),
{
    if v.len() > 1 {
        let before = v.drop_last();
        assert forall|j: int| 0 <= j < before.len() implies !floats::nan(#[trigger] before[j]) by {
            assert(before[j] == v[j]);
        }
        assert(!floats::nan(v[v.len() - 1]));
        let b = logits::last_greatest(before);
        if i < v.len() - 1 {
            law_argmax_is_greatest(before, i);
        } else {
            law_argmax_is_greatest(before, 0);
        }
        assert(before[b] == v[b]);
        assert(!floats::nan(v[b]));
    }
}

/// What is kept of a row are its greatest logits: none that is left out is above one that is kept.
pub proof fn law_kept_logits_are_the_greatest(
    logits: Seq<u32>,
    k: nat,
    ids: Seq<u32>,
    kept: Seq<u32>,
    i: int,
    j: int,
)
    requires
        logits::is_top(logits, k, ids, kept),
        0 <= i < ids.len(),
        0 <= j < logits.len(),
        !ids.contains(j as u32),
        logits.len() <= u32::MAX,
    ensures
        floats::rank(logits[j]) <= floats::rank(kept[i]),
{
    let keys = logits::falling_keys(logits);
    let o = choose|o: Seq<usize>|
        {
            &&& #[trigger] order::is_stable_order(keys, o)
            &&& ids.len() == if k < logits.len() {
                k
            } else {
                logits.len()
            }
            &&& kept.len() == ids.len()
            &&& forall|i: int|
                0 <= i < ids.len() ==> #[trigger] ids[i] == o[i] && kept[i] == logits[o[i] as int]
        };
    order::lemma_order_covers(keys, o, j);
    let p = choose|p: int| 0 <= p < o.len() && o[p] == j as usize;
    if p < ids.len() {
        assert(ids[p] == o[p]);
        assert(ids.contains(j as u32));
    }
    assert(ids[i] == o[i]);
    assert(keys[o[i] as int] <= keys[o[p] as int]);
}

/// Two captures can be compared if and only if they are of one vocabulary and have one number of
/// rows.
pub proof fn law_comparable_captures(a: StoreModel, b: StoreModel)
    ensures
        logits::comparison_fault(a, b) is None <==> a.vocab == b.vocab && a.rows.len()
            == b.rows.len(),
        logits::comparison_fault(a, a) is None,
{
}

/// Where all flags are set, as many are set as there are.
proof fn lemma_all_set(flags: Seq<bool>)
    requires
        forall|i: int| 0 <= i < flags.len() ==> #[trigger] flags[i],
    ensures
        flags.to_multiset().count(true) == flags.len(),
    decreases flags.len(),
{
    broadcast use vstd::seq_lib::group_to_multiset_ensures;
    broadcast use vstd::multiset::group_multiset_axioms;

    if flags.len() == 0 {
        assert(!flags.contains(true));
    } else {
        let before = flags.drop_last();
        assert forall|i: int| 0 <= i < before.len() implies #[trigger] before[i] by {
            assert(before[i] == flags[i]);
        }
        lemma_all_set(before);
        assert(flags[flags.len() - 1]);
        assert(flags =~= before.push(true));
    }
}

/// A capture compared with itself prefers the same token at every position, where no row is empty,
/// and every token that follows and that its row has is known to both.
pub proof fn law_capture_agrees_with_itself(
    m: StoreModel,
    divergences: Seq<u64>,
    totals: KlAccumulator,
    i: int,
)
    requires
        totals.holds(logits::positions_of(m, m, divergences)),
        forall|j: int| 0 <= j < m.rows.len() ==> logits::row_argmax(#[trigger] m.rows[j]) is Some,
        0 <= i < m.rows.len(),
    ensures
        logits::comparison_fault(m, m) is None,
        totals.values@.len() == m.rows.len(),
        totals.top1_hits == m.rows.len(),
        logits::prefer_same(m.rows[i], m.rows[i]),
        match logits::target_of(m, i) {
            Some(t) => logits::logits_of_target(m, m, i) == match logits::row_logit(m.rows[i], t) {
                Some(x) => Some((x, x)),
                None => None,
            },
            None => logits::logits_of_target(m, m, i) is None,
        },
{
    let flags = kl::flags_of(logits::positions_of(m, m, divergences));
    assert forall|j: int| 0 <= j < flags.len() implies #[trigger] flags[j] by {
        assert(logits::row_argmax(m.rows[j]) is Some);
    }
    lemma_all_set(flags);
}

} // verus!
