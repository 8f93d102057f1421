//! What a flat stream of records gives back.
use vstd::prelude::*;
use vstd::utf8::*;
use crate::bytes;
use crate::gguf::reader;
use crate::imatrix;
use crate::imatrix::{EntryModel, ErrorModel};
use crate::words;

verus! {

/// A record with its name.
pub type Record = (Seq<char>, EntryModel);

/// The bytes of a record: the length of the name, the name, the number of calls, the number of
/// values, and the values.
pub open spec fn record_bytes(r: Record) -> Seq<u8> {
    let name = encode_utf8(r.0);
    bytes::le_bytes(name.len(), 4) + (name + (bytes::le_bytes(r.1.ncall as nat, 4) + (
    bytes::le_bytes(r.1.values.len(), 4) + words::words_bytes(r.1.values))))
}

/// The bytes of records, one behind the other.
pub open spec fn records_bytes(records: Seq<Record>) -> Seq<u8>
    decreases records.len(),
{
    if records.len() == 0 {
        Seq::empty()
    } else {
        record_bytes(records[0]) + records_bytes(records.drop_first())
    }
}

/// The bytes of a stream: the number of records, and the records.
pub open spec fn stream_bytes(records: Seq<Record>) -> Seq<u8> {
    bytes::le_bytes(records.len(), 4) + records_bytes(records)
}

/// A name and values that a reader believes.
pub open spec fn believable(r: Record) -> bool {
    encode_utf8(r.0).len() <= 4096 && r.1.values.len() <= 0x1000_0000
}

/// The entries of records added to `m`, the later in place of the earlier.
pub open spec fn gathered(records: Seq<Record>, m: Map<Seq<char>, EntryModel>) -> Map<
    Seq<char>,
    EntryModel,
>
    decreases records.len(),
{
    if records.len() == 0 {
        m
    } else {
        gathered(records.drop_first(), m.insert(records[0].0, records[0].1))
    }
}

/// A number is read back from its four bytes.
proof fn lemma_word(b: Seq<u8>, pos: int, v: nat)
    requires
        v < 0x1_0000_0000,
        bytes::stands_at(b, pos, bytes::le_bytes(v, 4)),
    ensures
        imatrix::word_at(b, pos) == v,
        pos + 4 <= b.len(),
{
    bytes::lemma_pow256();
    bytes::lemma_le_bytes_len(v, 4);
    bytes::lemma_le_roundtrip(v, 4);
}

/// A record is read back from its bytes.
proof fn lemma_record(b: Seq<u8>, pos: int, i: nat, r: Record)
    requires
        believable(r),
        bytes::stands_at(b, pos, record_bytes(r)),
    ensures
        imatrix::record_at(b, pos, i) == Ok::<_, ErrorModel>(
            (r.0, r.1, pos + record_bytes(r).len()),
        ),
{
    let name = encode_utf8(r.0);
    let head = bytes::le_bytes(name.len(), 4);
    let calls = bytes::le_bytes(r.1.ncall as nat, 4);
    let count = bytes::le_bytes(r.1.values.len(), 4);
    let data = words::words_bytes(r.1.values);
    bytes::lemma_le_bytes_len(name.len(), 4);
    bytes::lemma_le_bytes_len(r.1.ncall as nat, 4);
    bytes::lemma_le_bytes_len(r.1.values.len(), 4);
    words::lemma_words_bytes(r.1.values);
    bytes::lemma_stands_split(b, pos, head, name + (calls + (count + data)));
    bytes::lemma_stands_split(b, pos + 4, name, calls + (count + data));
    let q = pos + 4 + name.len();
    bytes::lemma_stands_split(b, q, calls, count + data);
    bytes::lemma_stands_split(b, q + 4, count, data);
    lemma_word(b, pos, name.len());
    lemma_word(b, q, r.1.ncall as nat);
    lemma_word(b, q + 4, r.1.values.len());
    words::lemma_words_roundtrip(b, q + 8, r.1.values);
    encode_utf8_valid_utf8(r.0);
    encode_utf8_decode_utf8(r.0);
}

/// Records are read back from their bytes.
proof fn lemma_records(
    b: Seq<u8>,
    pos: int,
    i: nat,
    records: Seq<Record>,
    m: Map<Seq<char>, EntryModel>,
)
    requires
        forall|k: int| 0 <= k < records.len() ==> believable(#[trigger] records[k]),
        bytes::stands_at(b, pos, records_bytes(records)),
    ensures
        imatrix::records_at(b, pos, i, records.len(), m) == Ok::<_, ErrorModel>(
            gathered(records, m),
        ),
    decreases records.len(),
{
    if records.len() > 0 {
        let first = records[0];
        let rest = records.drop_first();
        bytes::lemma_stands_split(b, pos, record_bytes(first), records_bytes(rest));
        lemma_record(b, pos, i, first);
        assert forall|k: int| 0 <= k < rest.len() implies believable(#[trigger] rest[k]) by {
            assert(rest[k] == records[k + 1]);
        }
        lemma_records(
            b,
            pos + record_bytes(first).len(),
            i + 1,
            rest,
            m.insert(first.0, first.1),
        );
    }
}

/// A flat stream gives back its records: under every name the last record with that name. It is
/// never taken for a model file.
pub proof fn law_stream_reads_back(records: Seq<Record>)
    requires
        records.len() <= 1_000_000,
        forall|k: int| 0 <= k < records.len() ==> believable(#[trigger] records[k]),
    ensures
        imatrix::read_flat(stream_bytes(records)) == Ok::<_, ErrorModel>(
            gathered(records, Map::empty()),
        ),
        !imatrix::is_model_file(stream_bytes(records)),
{
    let b = stream_bytes(records);
    let head = bytes::le_bytes(records.len(), 4);
    bytes::lemma_le_bytes_len(records.len(), 4);
    assert(b.subrange(0, b.len() as int) =~= b);
    assert(bytes::stands_at(b, 0, head + records_bytes(records)));
    bytes::lemma_stands_split(b, 0, head, records_bytes(records));
    lemma_word(b, 0, records.len());
    lemma_records(b, 4, 0, records, Map::empty());
    if imatrix::is_model_file(b) {
        reveal_with_fuel(bytes::le_value, 5);
        assert(b.subrange(0, 4) == reader::magic());
        assert(bytes::le_value(reader::magic()) == 0x4655_4747);
    }
}

} // verus!
