//! Captured next-token distributions and their file format.
//!
//! A capture file holds a magic, the version, the size of the vocabulary, the number of logits kept
//! for each row (zero for all of them), the number of rows and flags; then the target of each row;
//! then the rows. Logits are held by their single-precision bits, the log-sum-exp of a row by its
//! double-precision bits.
use vstd::prelude::*;
use crate::bytes;
use crate::bytes::{le_at, push_le};
use crate::floats;
use crate::floats::{is_above, rank_of};
use crate::kl::KlAccumulator;
use crate::order;
use crate::order::stable_order;
use crate::words;
use crate::words::{push_words, read_words};

pub mod laws;
pub mod promises;

verus! {

/// The target of a position that has no next token.
pub const NO_TARGET: u32 = 0xffff_ffff;

/// One captured distribution.
#[derive(Debug)]
pub enum LogitRow {
    /// The logits of the whole vocabulary.
    Dense(Vec<u32>),
    /// The greatest logits with their tokens, and the log-sum-exp of the whole row.
    Sparse { ids: Vec<u32>, logits: Vec<u32>, full_lse: u64 },
}

/// What a [`LogitRow`] stands for.
pub enum RowModel {
    Dense(Seq<u32>),
    Sparse { ids: Seq<u32>, logits: Seq<u32>, full_lse: u64 },
}

impl View for LogitRow {
    type V = RowModel;

    open spec fn view(&self) -> RowModel {
        match self {
            LogitRow::Dense(v) => RowModel::Dense(v@),
            LogitRow::Sparse { ids, logits, full_lse } => RowModel::Sparse {
                ids: ids@,
                logits: logits@,
                full_lse: *full_lse,
            },
        }
    }
}

/// A capture that cannot be read, written or compared.
#[derive(Debug, Clone, Copy, PartialEq, Eq, Structural)]
pub enum LogitError {
    /// Too short, or without the magic.
    NotAStore,
    UnsupportedVersion(u32),
    Truncated,
    /// A row of the whole vocabulary in a capture that keeps only some logits.
    DenseRow { top_k: u32 },
    /// A row with another number of logits than the capture states.
    RowLength { top_k: u32, len: usize },
    /// Floats that do not make whole rows.
    NotWholeRows { len: usize, vocab: usize },
    /// Not one target for each row.
    TargetCount { targets: usize, rows: usize },
    /// Bytes that do not make whole floats.
    NotWholeFloats,
    VocabMismatch { reference: u32, candidate: u32 },
    RowCountMismatch { reference_rows: usize, candidate_rows: usize },
}

impl LogitError {
    /// What to tell the user.
    pub fn message(&self) -> (r: &'static str)
        ensures
            r@ == match *self {
                LogitError::NotAStore => "not a RQLG logit store"@,
                LogitError::UnsupportedVersion(_) => "RQLG version not supported"@,
                LogitError::Truncated => "RQLG truncated"@,
                LogitError::DenseRow { .. } => "store declares top_k but holds a dense row"@,
                LogitError::RowLength { .. } => "store declares another top_k than a row holds"@,
                LogitError::NotWholeRows { .. } =>
                    "dense logit dump is not a multiple of the vocabulary"@,
                LogitError::TargetCount { .. } => "not one target for each row"@,
                LogitError::NotWholeFloats => "not a multiple of 4 bytes"@,
                LogitError::VocabMismatch { .. } =>
                    "vocab mismatch: the captures are of different models"@,
                LogitError::RowCountMismatch { .. } =>
                    "row-count mismatch: the captures used different corpora or context lengths"@,
            },
    {
        match *self {
            LogitError::NotAStore => "not a RQLG logit store",
            LogitError::UnsupportedVersion(_) => "RQLG version not supported",
            LogitError::Truncated => "RQLG truncated",
            LogitError::DenseRow { .. } => "store declares top_k but holds a dense row",
            LogitError::RowLength { .. } => "store declares another top_k than a row holds",
            LogitError::NotWholeRows { .. } =>
                "dense logit dump is not a multiple of the vocabulary",
            LogitError::TargetCount { .. } => "not one target for each row",
            LogitError::NotWholeFloats => "not a multiple of 4 bytes",
            LogitError::VocabMismatch { .. } =>
                "vocab mismatch: the captures are of different models",
            LogitError::RowCountMismatch { .. } =>
                "row-count mismatch: the captures used different corpora or context lengths",
        }
    }
}

/// A key by which logits stand from the greatest to the smallest.
pub open spec fn falling_key(bits: u32) -> u64 {
    (0x1_0000_0000 - floats::rank(bits)) as u64
}

/// The keys of logits.
pub open spec fn falling_keys(logits: Seq<u32>) -> Seq<u64> {
    Seq::new(logits.len(), |i: int| falling_key(logits[i]))
}

/// The `k` greatest logits, from the greatest to the smallest, equal ones in the order of their
/// tokens.
pub open spec fn is_top(logits: Seq<u32>, k: nat, ids: Seq<u32>, kept: Seq<u32>) -> bool {
    exists|o: Seq<usize>|
        {
            &&& #[trigger] order::is_stable_order(falling_keys(logits), o)
            &&& ids.len() == if k < logits.len() {
                k
            } else {
                logits.len()
            }
            &&& kept.len() == ids.len()
            &&& forall|i: int|
                0 <= i < ids.len() ==> #[trigger] ids[i] == o[i] && kept[i] == logits[o[i] as int]
        }
}

/// The place of the greatest logit, told one by one: a later one replaces an earlier one unless
/// the earlier is above it.
pub open spec fn last_greatest(v: Seq<u32>) -> int
    decreases v.len(),
{
    if v.len() <= 1 {
        0
    } else {
        let b = last_greatest(v.drop_last());
        if floats::above(v[b], v.last()) {
            b
        } else {
            v.len() - 1
        }
    }
}

/// The token with the greatest logit: the last of several in a row of the whole vocabulary, the
/// first that is kept in any other.
pub open spec fn row_argmax(row: RowModel) -> Option<u32> {
    match row {
        RowModel::Dense(v) => if v.len() == 0 {
            None
        } else {
            Some(last_greatest(v) as u32)
        },
        RowModel::Sparse { ids, .. } => if ids.len() == 0 {
            None
        } else {
            Some(ids[0])
        },
    }
}

/// The first place of a token.
pub open spec fn first_place(ids: Seq<u32>, token: u32) -> Option<int>
    decreases ids.len(),
{
    if ids.len() == 0 {
        None
    } else if ids[0] == token {
        Some(0)
    } else {
        match first_place(ids.drop_first(), token) {
            Some(i) => Some(i + 1),
            None => None,
        }
    }
}

/// The logit of a token, where the row has it.
pub open spec fn row_logit(row: RowModel, token: u32) -> Option<u32> {
    match row {
        RowModel::Dense(v) => if token < v.len() {
            Some(v[token as int])
        } else {
            None
        },
        RowModel::Sparse { ids, logits, .. } => match first_place(ids, token) {
            Some(j) => if j < logits.len() {
                Some(logits[j])
            } else {
                None
            },
            None => None,
        },
    }
}

impl LogitRow {
    /// A row with its `k` greatest logits, where `full_lse` is the log-sum-exp of all of them.
    pub fn sparsify(logits: &[u32], k: usize, full_lse: u64) -> (r: LogitRow)
        requires
            logits@.len() <= u32::MAX,
            forall|i: int| 0 <= i < logits@.len() ==> !floats::nan(#[trigger] logits@[i]),
        ensures
            r matches LogitRow::Sparse { ids, logits: kept, full_lse: l } && l == full_lse
                && is_top(logits@, k as nat, ids@, kept@),
    {
        let n: usize = logits.len();
        let mut keys: Vec<u64> = Vec::new();
        let mut i: usize = 0;
        while i < n
            invariant
                i <= n == logits@.len(),
                keys@ == falling_keys(logits@).subrange(0, i as int),
            decreases n - i,
        {
            let x: i64 = rank_of(logits[i]);
            keys.push((0x1_0000_0000i64 - x) as u64);
            i = i + 1;
            assert(keys@ =~= falling_keys(logits@).subrange(0, i as int));
        }
        assert(keys@ =~= falling_keys(logits@));
        let o = stable_order(keys.as_slice());
        let m: usize = if k < n {
            k
        } else {
            n
        };
        let mut ids: Vec<u32> = Vec::new();
        let mut kept: Vec<u32> = Vec::new();
        let mut j: usize = 0;
        while j < m
            invariant
                j <= m <= n == logits@.len() == o@.len(),
                n <= u32::MAX,
                order::is_stable_order(falling_keys(logits@), o@),
                ids@.len() == kept@.len() == j,
                forall|i: int|
                    0 <= i < j ==> #[trigger] ids@[i] == o@[i] && kept@[i]
                        == logits@[o@[i] as int],
            decreases m - j,
        {
            let at: usize = o[j];
            assert(o@[j as int] < logits@.len());
            assert(at as u32 == at);
            let ghost (ids0, kept0) = (ids@, kept@);
            ids.push(at as u32);
            kept.push(logits[at]);
            assert forall|i: int| 0 <= i < j + 1 implies #[trigger] ids@[i] == o@[i] && kept@[i]
                == logits@[o@[i] as int] by {
                if i < j {
                    assert(ids@[i] == ids0[i]);
                    assert(kept@[i] == kept0[i]);
                }
            }
            j = j + 1;
        }
        LogitRow::Sparse { ids, logits: kept, full_lse }
    }

    /// The token with the greatest logit.
    pub fn argmax(&self) -> (r: Option<u32>)
        requires
            self matches LogitRow::Dense(v) ==> v@.len() <= u32::MAX,
        ensures
            r == row_argmax(self@),
    {
        match self {
            LogitRow::Dense(v) => {
                let n: usize = v.len();
                if n == 0 {
                    return None;
                }
                let mut best: usize = 0;
                let mut i: usize = 1;
                while i < n
                    invariant
                        1 <= i <= n == v@.len(),
                        best < i,
                        best == last_greatest(v@.subrange(0, i as int)),
                    decreases n - i,
                {
                    let ghost longer = v@.subrange(0, i + 1);
                    assert(longer.drop_last() =~= v@.subrange(0, i as int));
                    if !is_above(v[best], v[i]) {
                        best = i;
                    }
                    i = i + 1;
                }
                assert(v@.subrange(0, n as int) =~= v@);
                Some(best as u32)
            },
            LogitRow::Sparse { ids, .. } => if ids.len() == 0 {
                None
            } else {
                Some(ids[0])
            },
        }
    }

    /// The logit of a token, where the row has it.
    pub fn logit_of(&self, token: u32) -> (r: Option<u32>)
        ensures
            r == row_logit(self@, token),
    {
        match self {
            LogitRow::Dense(v) => if (token as u64) < v.len() as u64 {
                Some(v[token as usize])
            } else {
                None
            },
            LogitRow::Sparse { ids, logits, .. } => match place_of(ids.as_slice(), token) {
                Some(j) => if j < logits.len() {
                    Some(logits[j])
                } else {
                    None
                },
                None => None,
            },
        }
    }
}

/// The first place of a token.
fn place_of(ids: &[u32], token: u32) -> (r: Option<usize>)
    ensures
        match r {
            Some(j) => first_place(ids@, token) == Some(j as int),
            None => first_place(ids@, token) is None,
        },
{
    let n: usize = ids.len();
    let mut i: usize = 0;
    let ghost whole = first_place(ids@, token);
    assert(ids@.subrange(0, n as int) =~= ids@);
    while i < n
        invariant
            i <= n == ids@.len(),
            whole == first_place(ids@, token),
            match first_place(ids@.subrange(i as int, n as int), token) {
                Some(j) => whole == Some(i + j),
                None => whole is None,
            },
        decreases n - i,
    {
        let ghost rest = ids@.subrange(i as int, n as int);
        assert(rest.drop_first() =~= ids@.subrange(i + 1, n as int));
        if ids[i] == token {
            return Some(i);
        }
        i = i + 1;
    }
    None
}

/// Captured distributions over a text.
#[derive(Debug)]
pub struct LogitStore {
    pub vocab: u32,
    /// How many logits each row keeps; zero for all.
    pub top_k: u32,
    /// The next token at each position, or [`NO_TARGET`].
    pub targets: Vec<u32>,
    pub rows: Vec<LogitRow>,
}

/// What a [`LogitStore`] stands for.
pub struct StoreModel {
    pub vocab: u32,
    pub top_k: u32,
    pub targets: Seq<u32>,
    pub rows: Seq<RowModel>,
}

/// What rows stand for.
pub open spec fn row_models(rows: Seq<LogitRow>) -> Seq<RowModel> {
    Seq::new(rows.len(), |i: int| rows[i]@)
}

impl View for LogitStore {
    type V = StoreModel;

    open spec fn view(&self) -> StoreModel {
        StoreModel {
            vocab: self.vocab,
            top_k: self.top_k,
            targets: self.targets@,
            rows: row_models(self.rows@),
        }
    }
}

/// The magic of a capture file.
pub open spec fn magic() -> Seq<u8> {
    seq![0x52u8, 0x51, 0x4c, 0x47]
}

/// The first bytes of a capture file.
pub open spec fn header_bytes(vocab: u32, top_k: u32, n: nat) -> Seq<u8> {
    magic() + bytes::le_bytes(1, 4) + bytes::le_bytes(vocab as nat, 4) + bytes::le_bytes(
        top_k as nat,
        4,
    ) + bytes::le_bytes(n, 8) + bytes::le_bytes(0, 8)
}

/// The bytes of a row.
pub open spec fn row_bytes(row: RowModel) -> Seq<u8> {
    match row {
        RowModel::Dense(v) => words::words_bytes(v),
        RowModel::Sparse { ids, logits, full_lse } => words::words_bytes(ids) + words::words_bytes(
            logits,
        ) + bytes::le_bytes(full_lse as nat, 8),
    }
}

/// The bytes of rows.
pub open spec fn rows_bytes(rows: Seq<RowModel>) -> Seq<u8>
    decreases rows.len(),
{
    if rows.len() == 0 {
        Seq::empty()
    } else {
        rows_bytes(rows.drop_last()) + row_bytes(rows.last())
    }
}

/// The bytes of a capture file.
pub open spec fn store_bytes(m: StoreModel) -> Seq<u8> {
    header_bytes(m.vocab, m.top_k, m.rows.len()) + words::words_bytes(m.targets) + rows_bytes(m.rows)
}

/// What keeps a row out of a capture.
pub open spec fn row_fault(row: RowModel, top_k: u32) -> Option<LogitError> {
    match row {
        RowModel::Dense(_) => if top_k != 0 {
            Some(LogitError::DenseRow { top_k })
        } else {
            None
        },
        RowModel::Sparse { ids, .. } => if ids.len() != top_k {
            Some(LogitError::RowLength { top_k, len: ids.len() as usize })
        } else {
            None
        },
    }
}

/// The bytes of a row in a file.
pub open spec fn row_size(vocab: u32, top_k: u32) -> nat {
    if top_k == 0 {
        4 * vocab as nat
    } else {
        8 * top_k as nat + 8
    }
}

/// The row that stands in `b` at `pos`.
pub open spec fn row_at(b: Seq<u8>, pos: int, vocab: u32, top_k: u32) -> RowModel {
    if top_k == 0 {
        RowModel::Dense(words::words_at(b, pos, vocab as nat))
    } else {
        RowModel::Sparse {
            ids: words::words_at(b, pos, top_k as nat),
            logits: words::words_at(b, pos + 4 * top_k, top_k as nat),
            full_lse: bytes::le_value(b.subrange(pos + 8 * top_k, pos + 8 * top_k + 8)) as u64,
        }
    }
}

/// The capture that `b` holds.
pub open spec fn read_store(b: Seq<u8>) -> Result<StoreModel, LogitError> {
    let version = bytes::le_value(b.subrange(4, 8)) as u32;
    let vocab = bytes::le_value(b.subrange(8, 12)) as u32;
    let top_k = bytes::le_value(b.subrange(12, 16)) as u32;
    let n = bytes::le_value(b.subrange(16, 24));
    let size = row_size(vocab, top_k);
    if b.len() < 32 || b.subrange(0, 4) != magic() {
        Err(LogitError::NotAStore)
    } else if version != 1 {
        Err(LogitError::UnsupportedVersion(version))
    } else if 32 + 4 * n + n * size > b.len() {
        Err(LogitError::Truncated)
    } else {
        Ok(
            StoreModel {
                vocab,
                top_k,
                targets: words::words_at(b, 32, n),
                rows: Seq::new(n, |i: int| row_at(b, (32 + 4 * n + i * size) as int, vocab, top_k)),
            },
        )
    }
}

impl LogitStore {
    /// An empty capture.
    pub fn new(vocab: u32, top_k: u32) -> (r: LogitStore)
        ensures
            r.vocab == vocab,
            r.top_k == top_k,
            r.targets@.len() == 0,
            r.rows@.len() == 0,
    {
        LogitStore { vocab, top_k, targets: Vec::new(), rows: Vec::new() }
    }

    /// How many rows there are.
    pub fn len(&self) -> (r: usize)
        ensures
            r == self.rows@.len(),
    {
        self.rows.len()
    }

    /// Whether there are no rows.
    pub fn is_empty(&self) -> (r: bool)
        ensures
            r == (self.rows@.len() == 0),
    {
        self.rows.len() == 0
    }

    /// Adds a row with its target.
    pub fn push(&mut self, row: LogitRow, target: u32)
        ensures
            final(self).rows@ == old(self).rows@.push(row),
            final(self).targets@ == old(self).targets@.push(target),
            final(self).vocab == old(self).vocab,
            final(self).top_k == old(self).top_k,
    {
        self.rows.push(row);
        self.targets.push(target);
    }

    /// A capture of rows of the whole vocabulary, one behind the other, with a target for each or
    /// for none.
    pub fn from_dense_f32(data: &[u32], vocab: usize, targets: Option<&[u32]>) -> (r: Result<
        LogitStore,
        LogitError,
    >)
        ensures
            r matches Err(e) ==> e == if vocab == 0 || data@.len() % vocab as nat != 0 {
                LogitError::NotWholeRows { len: data@.len() as usize, vocab }
            } else {
                LogitError::TargetCount {
                    targets: targets->0@.len() as usize,
                    rows: (data@.len() / vocab as nat) as usize,
                }
            },
            r is Ok <==> dense_fits(data@.len(), vocab, targets),
            r matches Ok(s) ==> {
                let n = data@.len() / vocab as nat;
                &&& s.vocab == vocab as u32
                &&& s.top_k == 0
                &&& s.rows@.len() == n
                &&& s.targets@.len() == n
                &&& forall|i: int|
                    0 <= i < n ==> (#[trigger] s.rows@[i])@ == RowModel::Dense(
                        data@.subrange(i * vocab, (i + 1) * vocab),
                    )
                &&& forall|i: int|
                    0 <= i < n ==> #[trigger] s.targets@[i] == match targets {
                        Some(t) => t@[i],
                        None => NO_TARGET,
                    }
            },
    {
        let len: usize = data.len();
        if vocab == 0 || len % vocab != 0 {
            return Err(LogitError::NotWholeRows { len, vocab });
        }
        let n: usize = len / vocab;
        if let Some(t) = targets {
            if t.len() != n {
                return Err(LogitError::TargetCount { targets: t.len(), rows: n });
            }
        }
        proof {
            vstd::arithmetic::div_mod::lemma_fundamental_div_mod(len as int, vocab as int);
            assert(n * vocab == len) by (nonlinear_arith)
                requires
                    len == vocab * n,
            ;
            assert(0 * vocab == 0);
        }
        let mut store = LogitStore::new(vocab as u32, 0);
        let mut i: usize = 0;
        let mut at: usize = 0;
        while i < n
            invariant
                i <= n,
                vocab > 0,
                n * vocab == len == data@.len(),
                at == i * vocab,
                targets matches Some(t) ==> t@.len() == n,
                store.vocab == vocab as u32,
                store.top_k == 0,
                store.rows@.len() == i,
                store.targets@.len() == i,
                forall|j: int|
                    0 <= j < i ==> (#[trigger] store.rows@[j])@ == RowModel::Dense(
                        data@.subrange(j * vocab, (j + 1) * vocab),
                    ),
                forall|j: int|
                    0 <= j < i ==> #[trigger] store.targets@[j] == match targets {
                        Some(t) => t@[j],
                        None => NO_TARGET,
                    },
            decreases n - i,
        {
            proof {
                assert((i + 1) * vocab == i * vocab + vocab) by (nonlinear_arith);
                assert((i + 1) * vocab <= n * vocab) by (nonlinear_arith)
                    requires
                        i + 1 <= n,
                ;
            }
            let part = vstd::slice::slice_subrange(data, at, at + vocab);
            let row = LogitRow::Dense(vstd::slice::slice_to_vec(part));
            let target: u32 = match targets {
                Some(t) => t[i],
                None => NO_TARGET,
            };
            store.push(row, target);
            at = at + vocab;
            i = i + 1;
        }
        Ok(store)
    }

    /// A capture of rows of the whole vocabulary in a file without a header.
    pub fn from_raw(b: &[u8], vocab: usize) -> (r: Result<LogitStore, LogitError>)
        ensures
            match r {
                Ok(s) => read_raw(b@, vocab) == Ok::<StoreModel, LogitError>(s@),
                Err(e) => read_raw(b@, vocab) == Err::<StoreModel, LogitError>(e),
            },
    {
        let len: usize = b.len();
        if len % 4 != 0 {
            return Err(LogitError::NotWholeFloats);
        }
        let data = read_words(b, 0, len / 4);
        let r = LogitStore::from_dense_f32(data.as_slice(), vocab, None);
        proof {
            if r is Ok {
                let model = read_raw(b@, vocab)->Ok_0;
                assert(r->Ok_0@.rows =~= model.rows);
                assert(r->Ok_0@.targets =~= model.targets);
            }
        }
        r
    }

    /// Keeps the `k` greatest logits of every row of the whole vocabulary; `lses` has for each row
    /// the log-sum-exp of all its logits. Nothing changes where `k` is zero.
    pub fn sparsify(&mut self, k: usize, lses: &[u64])
        requires
            lses@.len() == old(self).rows@.len(),
            forall|i: int|
                0 <= i < old(self).rows@.len() ==> ((#[trigger] old(self).rows@[i])@ matches
                    RowModel::Dense(v) ==> v.len() <= u32::MAX && forall|j: int|
                    0 <= j < v.len() ==> !floats::nan(#[trigger] v[j])),
        ensures
            k == 0 ==> *final(self) == *old(self),
            k > 0 ==> {
                &&& final(self).top_k == k as u32
                &&& final(self).vocab == old(self).vocab
                &&& final(self).targets == old(self).targets
                &&& final(self).rows@.len() == old(self).rows@.len()
                &&& forall|i: int|
                    0 <= i < old(self).rows@.len() ==> sparsified(
                        old(self).rows@[i]@,
                        k as nat,
                        lses@[i],
                        (#[trigger] final(self).rows@[i])@,
                    )
            },
    {
        if k == 0 {
            return;
        }
        let ghost before = self.rows@;
        let n: usize = self.rows.len();
        let mut i: usize = 0;
        while i < n
            invariant
                i <= n == self.rows@.len() == before.len() == lses@.len(),
                before == old(self).rows@,
                self.vocab == old(self).vocab,
                self.targets == old(self).targets,
                self.top_k == old(self).top_k,
                forall|j: int|
                    0 <= j < before.len() ==> ((#[trigger] before[j])@ matches RowModel::Dense(v)
                        ==> v.len() <= u32::MAX && forall|x: int|
                        0 <= x < v.len() ==> !floats::nan(#[trigger] v[x])),
                forall|j: int| i <= j < n ==> #[trigger] self.rows@[j] == before[j],
                forall|j: int|
                    0 <= j < i ==> sparsified(
                        before[j]@,
                        k as nat,
                        lses@[j],
                        (#[trigger] self.rows@[j])@,
                    ),
            decreases n - i,
        {
            let replacement: Option<LogitRow> = match &self.rows[i] {
                LogitRow::Dense(v) => {
                    assert(before[i as int]@ == RowModel::Dense(v@));
                    Some(LogitRow::sparsify(v.as_slice(), k, lses[i]))
                },
                LogitRow::Sparse { .. } => None,
            };
            match replacement {
                Some(r) => {
                    self.rows.set(i, r);
                },
                None => {},
            }
            i = i + 1;
        }
        self.top_k = k as u32;
    }

    /// The bytes of a capture file, or the first row that does not belong into it.
    pub fn to_bytes(&self) -> (r: Result<Vec<u8>, LogitError>)
        ensures
            match r {
                Ok(b) => b@ == store_bytes(self@) && forall|i: int|
                    0 <= i < self.rows@.len() ==> row_fault(
                        (#[trigger] self.rows@[i])@,
                        self.top_k,
                    ) is None,
                Err(e) => exists|i: int|
                    {
                        &&& 0 <= i < self.rows@.len()
                        &&& row_fault((#[trigger] self.rows@[i])@, self.top_k) == Some(e)
                        &&& forall|j: int|
                            0 <= j < i ==> row_fault((#[trigger] self.rows@[j])@, self.top_k)
                                is None
                    },
            },
    {
        let mut buf: Vec<u8> = Vec::new();
        buf.push(0x52);
        buf.push(0x51);
        buf.push(0x4c);
        buf.push(0x47);
        assert(buf@ =~= magic());
        push_le(&mut buf, 1, 4);
        push_le(&mut buf, self.vocab as u64, 4);
        push_le(&mut buf, self.top_k as u64, 4);
        push_le(&mut buf, self.rows.len() as u64, 8);
        push_le(&mut buf, 0, 8);
        push_words(&mut buf, self.targets.as_slice());
        let ghost head = buf@;
        let ghost all = row_models(self.rows@);
        let n: usize = self.rows.len();
        let mut i: usize = 0;
        assert(buf@ =~= head + rows_bytes(all.subrange(0, 0)));
        while i < n
            invariant
                i <= n == self.rows@.len(),
                all == row_models(self.rows@),
                buf@ == head + rows_bytes(all.subrange(0, i as int)),
                forall|j: int|
                    0 <= j < i ==> row_fault((#[trigger] self.rows@[j])@, self.top_k) is None,
            decreases n - i,
        {
            let ghost longer = all.subrange(0, i + 1);
            let ghost had = buf@;
            assert(longer.drop_last() =~= all.subrange(0, i as int));
            assert(longer.last() == self.rows@[i as int]@);
            match &self.rows[i] {
                LogitRow::Dense(v) => {
                    if self.top_k != 0 {
                        return Err(LogitError::DenseRow { top_k: self.top_k });
                    }
                    push_words(&mut buf, v.as_slice());
                },
                LogitRow::Sparse { ids, logits, full_lse } => {
                    let len: usize = ids.len();
                    if len as u64 != self.top_k as u64 {
                        return Err(LogitError::RowLength { top_k: self.top_k, len });
                    }
                    push_words(&mut buf, ids.as_slice());
                    push_words(&mut buf, logits.as_slice());
                    push_le(&mut buf, *full_lse, 8);
                },
            }
            assert(buf@ =~= had + row_bytes(longer.last()));
            assert(buf@ =~= head + rows_bytes(longer));
            i = i + 1;
        }
        assert(all.subrange(0, n as int) =~= all);
        assert(buf@ =~= store_bytes(self@));
        Ok(buf)
    }

    /// Reads a capture file.
    pub fn from_bytes(b: &[u8]) -> (r: Result<LogitStore, LogitError>)
        ensures
            match r {
                Ok(s) => read_store(b@) == Ok::<StoreModel, LogitError>(s@),
                Err(e) => read_store(b@) == Err::<StoreModel, LogitError>(e),
            },
    {
        let len: usize = b.len();
        if len < 32 {
            return Err(LogitError::NotAStore);
        }
        if !(b[0] == 0x52 && b[1] == 0x51 && b[2] == 0x4c && b[3] == 0x47) {
            assert(b@.subrange(0, 4) != magic()) by {
                assert(b@.subrange(0, 4)[0] == b@[0]);
                assert(b@.subrange(0, 4)[1] == b@[1]);
                assert(b@.subrange(0, 4)[2] == b@[2]);
                assert(b@.subrange(0, 4)[3] == b@[3]);
            }
            return Err(LogitError::NotAStore);
        }
        assert(b@.subrange(0, 4) =~= magic());
        proof {
            bytes::lemma_pow256();
        }
        let version: u32 = le_at(b, 4, 4) as u32;
        if version != 1 {
            return Err(LogitError::UnsupportedVersion(version));
        }
        let vocab: u32 = le_at(b, 8, 4) as u32;
        let top_k: u32 = le_at(b, 12, 4) as u32;
        let n_rows: u64 = le_at(b, 16, 8);
        let size: u64 = if top_k == 0 {
            4 * vocab as u64
        } else {
            8 * top_k as u64 + 8
        };
        proof {
            assert(n_rows * size <= 0xffff_ffff_ffff_ffff * 0x8_0000_0008) by (nonlinear_arith)
                requires
                    n_rows <= 0xffff_ffff_ffff_ffff,
                    size <= 0x8_0000_0008,
            ;
        }
        let total: u128 = 32 + 4 * (n_rows as u128) + (n_rows as u128) * (size as u128);
        if total > len as u128 {
            return Err(LogitError::Truncated);
        }
        let n: usize = n_rows as usize;
        let targets = read_words(b, 32, n);
        let ghost start = (32 + 4 * n) as int;
        let mut rows: Vec<LogitRow> = Vec::new();
        let mut cur: usize = 32 + 4 * n;
        let mut i: usize = 0;
        assert(0 * size == 0);
        while i < n
            invariant
                i <= n,
                len == b@.len(),
                size == row_size(vocab, top_k),
                start == 32 + 4 * n,
                start + n * size <= len,
                cur == start + i * size,
                bytes::pow256(8) == 0x1_0000_0000_0000_0000,
                rows@.len() == i,
                forall|j: int|
                    0 <= j < i ==> (#[trigger] rows@[j])@ == row_at(
                        b@,
                        start + j * size,
                        vocab,
                        top_k,
                    ),
            decreases n - i,
        {
            proof {
                assert((i + 1) * size == i * size + size) by (nonlinear_arith);
                assert((i + 1) * size <= n * size) by (nonlinear_arith)
                    requires
                        i + 1 <= n,
                ;
            }
            if top_k == 0 {
                let v = read_words(b, cur, vocab as usize);
                rows.push(LogitRow::Dense(v));
            } else {
                let k: usize = top_k as usize;
                let ids = read_words(b, cur, k);
                let logits = read_words(b, cur + 4 * k, k);
                let full_lse: u64 = le_at(b, cur + 8 * k, 8);
                rows.push(LogitRow::Sparse { ids, logits, full_lse });
            }
            cur = cur + size as usize;
            i = i + 1;
        }
        let s = LogitStore { vocab, top_k, targets, rows };
        proof {
            let m = read_store(b@)->Ok_0;
            assert(s@.rows =~= m.rows);
        }
        Ok(s)
    }

    /// Whether two captures can be compared: of one vocabulary and with one number of rows.
    pub fn check_comparable(&self, candidate: &LogitStore) -> (r: Result<(), LogitError>)
        ensures
            match comparison_fault(self@, candidate@) {
                Some(e) => r == Err::<(), LogitError>(e),
                None => r is Ok,
            },
    {
        if self.vocab != candidate.vocab {
            return Err(
                LogitError::VocabMismatch { reference: self.vocab, candidate: candidate.vocab },
            );
        }
        if self.rows.len() != candidate.rows.len() {
            return Err(
                LogitError::RowCountMismatch {
                    reference_rows: self.rows.len(),
                    candidate_rows: candidate.rows.len(),
                },
            );
        }
        Ok(())
    }

    /// The target of a position, where it has one.
    pub fn target_at(&self, i: usize) -> (r: Option<u32>)
        ensures
            r == target_of(self@, i as int),
    {
        if i < self.targets.len() && self.targets[i] != NO_TARGET {
            Some(self.targets[i])
        } else {
            None
        }
    }

    /// The logits of the token that follows a position in both captures, where it is known and both
    /// rows have it.
    pub fn target_logits(&self, candidate: &LogitStore, i: usize) -> (r: Option<(u32, u32)>)
        requires
            i < self.rows@.len(),
            i < candidate.rows@.len(),
        ensures
            r == logits_of_target(self@, candidate@, i as int),
    {
        match self.target_at(i) {
            Some(t) => match (self.rows[i].logit_of(t), candidate.rows[i].logit_of(t)) {
                (Some(x), Some(y)) => Some((x, y)),
                _ => None,
            },
            None => None,
        }
    }

    /// Gathers the positions of two captures, whose divergences are given: at how many both prefer
    /// the same token, and at how many the token that follows is known to both.
    pub fn compare(&self, candidate: &LogitStore, divergences: &[u64]) -> (r: Result<
        KlAccumulator,
        LogitError,
    >)
        requires
            comparison_fault(self@, candidate@) is None ==> divergences@.len()
                == self.rows@.len(),
            countable(self@),
            countable(candidate@),
        ensures
            match comparison_fault(self@, candidate@) {
                Some(e) => r matches Err(x) && x == e,
                None => {
                    &&& r matches Ok(acc)
                    &&& acc.holds(positions_of(self@, candidate@, divergences@))
                    &&& acc.wf()
                    &&& acc.target_count == known_targets(
                        self@,
                        candidate@,
                        self.rows@.len() as int,
                    )
                },
            },
    {
        match self.check_comparable(candidate) {
            Err(e) => return Err(e),
            Ok(()) => {},
        }
        let n: usize = self.rows.len();
        let mut acc = KlAccumulator::new();
        let ghost all = positions_of(self@, candidate@, divergences@);
        assert(all.subrange(0, 0) =~= Seq::empty());
        let mut i: usize = 0;
        while i < n
            invariant
                i <= n == self.rows@.len() == candidate.rows@.len() == divergences@.len(),
                countable(self@),
                countable(candidate@),
                all == positions_of(self@, candidate@, divergences@),
                acc.holds(all.subrange(0, i as int)),
                acc.wf(),
                acc.target_count == known_targets(self@, candidate@, i as int) <= i,
            decreases n - i,
        {
            let a = &self.rows[i];
            let b = &candidate.rows[i];
            assert(self@.rows[i as int] == a@ && candidate@.rows[i as int] == b@);
            assert(all.subrange(0, i + 1) =~= all.subrange(0, i as int).push(all[i as int]));
            acc.push(divergences[i], rows_agree(a, b));
            if self.target_logits(candidate, i).is_some() {
                acc.push_target();
            }
            i = i + 1;
        }
        assert(all.subrange(0, n as int) =~= all);
        Ok(acc)
    }
}

/// Why two captures cannot be compared: they are not of one vocabulary, or do not have one number
/// of rows.
pub open spec fn comparison_fault(a: StoreModel, b: StoreModel) -> Option<LogitError> {
    if a.vocab != b.vocab {
        Some(LogitError::VocabMismatch { reference: a.vocab, candidate: b.vocab })
    } else if a.rows.len() != b.rows.len() {
        Some(
            LogitError::RowCountMismatch {
                reference_rows: a.rows.len() as usize,
                candidate_rows: b.rows.len() as usize,
            },
        )
    } else {
        None
    }
}

/// The places of each row can be counted in 32 bits.
pub open spec fn countable(m: StoreModel) -> bool {
    forall|i: int|
        0 <= i < m.rows.len() ==> match #[trigger] m.rows[i] {
            RowModel::Dense(v) => v.len() <= u32::MAX,
            RowModel::Sparse { .. } => true,
        }
}

/// Two rows prefer the same token.
pub open spec fn prefer_same(a: RowModel, b: RowModel) -> bool {
    row_argmax(a) is Some && row_argmax(a) == row_argmax(b)
}

/// The positions of two captures: the divergence of each, and whether both prefer the same token
/// there.
pub open spec fn positions_of(a: StoreModel, b: StoreModel, divergences: Seq<u64>) -> Seq<
    (u64, bool),
> {
    Seq::new(a.rows.len(), |i: int| (divergences[i], prefer_same(a.rows[i], b.rows[i])))
}

/// The token that follows a position, where it is known.
pub open spec fn target_of(m: StoreModel, i: int) -> Option<u32> {
    if i < m.targets.len() && m.targets[i] != NO_TARGET {
        Some(m.targets[i])
    } else {
        None
    }
}

/// The logits of the token that follows a position of `a`, where it is known and both rows have it.
pub open spec fn logits_of_target(a: StoreModel, b: StoreModel, i: int) -> Option<(u32, u32)> {
    match target_of(a, i) {
        Some(t) => match (row_logit(a.rows[i], t), row_logit(b.rows[i], t)) {
            (Some(x), Some(y)) => Some((x, y)),
            _ => None,
        },
        None => None,
    }
}

/// At how many of the first `n` positions the token that follows is known to both.
pub open spec fn known_targets(a: StoreModel, b: StoreModel, n: int) -> nat
    decreases n,
{
    if n <= 0 {
        0
    } else {
        known_targets(a, b, n - 1) + if logits_of_target(a, b, n - 1) is Some {
            1nat
        } else {
            0
        }
    }
}

/// Floats make whole rows, and there is one target for each row or none at all.
pub open spec fn dense_fits(len: nat, vocab: usize, targets: Option<&[u32]>) -> bool {
    &&& vocab > 0
    &&& len % vocab as nat == 0
    &&& targets matches Some(t) ==> t@.len() == len / vocab as nat
}

/// The capture in a file without a header: rows of the whole vocabulary, without targets.
pub open spec fn read_raw(b: Seq<u8>, vocab: usize) -> Result<StoreModel, LogitError> {
    if b.len() % 4 != 0 {
        Err(LogitError::NotWholeFloats)
    } else if !dense_fits(b.len() / 4, vocab, None) {
        Err(LogitError::NotWholeRows { len: (b.len() / 4) as usize, vocab })
    } else {
        let data = words::words_at(b, 0, b.len() / 4);
        let n = data.len() / vocab as nat;
        Ok(
            StoreModel {
                vocab: vocab as u32,
                top_k: 0,
                targets: Seq::new(n, |i: int| NO_TARGET),
                rows: Seq::new(
                    n,
                    |i: int| RowModel::Dense(data.subrange(i * vocab, (i + 1) * vocab)),
                ),
            },
        )
    }
}

/// `after` is the row `before` with its `k` greatest logits; a row that keeps only some stays as it
/// is.
pub open spec fn sparsified(before: RowModel, k: nat, lse: u64, after: RowModel) -> bool {
    match before {
        RowModel::Dense(v) => after matches RowModel::Sparse { ids, logits, full_lse } && full_lse
            == lse && is_top(v, k, ids, logits),
        RowModel::Sparse { .. } => after == before,
    }
}

/// The tokens, the logits and the log-sum-exp of a row, however it is held; `lse` is the
/// log-sum-exp of a row of the whole vocabulary.
pub fn row_parts(row: &LogitRow, lse: u64) -> (r: (Vec<u32>, Vec<u32>, u64))
    requires
        row matches LogitRow::Dense(v) ==> v@.len() <= u32::MAX,
    ensures
        match row@ {
            RowModel::Dense(v) => r.0@ == Seq::new(v.len(), |i: int| i as u32) && r.1@ == v && r.2
                == lse,
            RowModel::Sparse { ids, logits, full_lse } => r.0@ == ids && r.1@ == logits && r.2
                == full_lse,
        },
{
    match row {
        LogitRow::Dense(v) => {
            let n: usize = v.len();
            let mut ids: Vec<u32> = Vec::new();
            let mut i: usize = 0;
            while i < n
                invariant
                    i <= n == v@.len() <= u32::MAX,
                    ids@.len() == i,
                    forall|j: int| 0 <= j < i ==> #[trigger] ids@[j] == j,
                decreases n - i,
            {
                ids.push(i as u32);
                i = i + 1;
            }
            assert(ids@ =~= Seq::new(v@.len(), |i: int| i as u32));
            (ids, vstd::slice::slice_to_vec(v.as_slice()), lse)
        },
        LogitRow::Sparse { ids, logits, full_lse } => (
            vstd::slice::slice_to_vec(ids.as_slice()),
            vstd::slice::slice_to_vec(logits.as_slice()),
            *full_lse,
        ),
    }
}

/// Whether two rows have their greatest logit at one token; rows without logits have none.
pub fn rows_agree(a: &LogitRow, b: &LogitRow) -> (r: bool)
    requires
        a matches LogitRow::Dense(v) ==> v@.len() <= u32::MAX,
        b matches LogitRow::Dense(v) ==> v@.len() <= u32::MAX,
    ensures
        r == prefer_same(a@, b@),
{
    match (a.argmax(), b.argmax()) {
        (Some(x), Some(y)) => x == y,
        _ => false,
    }
}

} // verus!
