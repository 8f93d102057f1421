//! Writing a container whose tensor data come one tensor at a time.
use vstd::prelude::*;
use crate::gguf::geometry;
use crate::gguf::laws;
use crate::gguf::reader;
use crate::gguf::value::{GgufValue, ValueModel};
use crate::gguf::writer;
use crate::gguf::writer::{
    data_len, padding_after, push_zeros, stream_header, GgufWriter, PlanModel, TensorPlan,
    WrongLength,
};

verus! {

/// A file in the writing: its header is written, and the data of its tensors are asked for in their
/// order.
#[derive(Debug)]
pub struct GgufStream {
    pub plans: Vec<TensorPlan>,
    pub alignment: u64,
    /// How many tensors are written.
    pub next: usize,
    /// How many bytes are written.
    pub total: u64,
    /// The data of the tensor `next` had another length than its header states.
    pub stopped: bool,
}

/// What a [`GgufStream`] stands for.
pub struct StreamModel {
    pub plans: Seq<PlanModel>,
    pub alignment: nat,
    pub next: nat,
    pub total: nat,
    pub stopped: bool,
}

impl View for GgufStream {
    type V = StreamModel;

    open spec fn view(&self) -> StreamModel {
        StreamModel {
            plans: writer::plans_model(self.plans@),
            alignment: self.alignment as nat,
            next: self.next as nat,
            total: self.total as nat,
            stopped: self.stopped,
        }
    }
}

/// The file as its header leaves it.
pub open spec fn begun(
    kv: Seq<(Seq<char>, ValueModel)>,
    plans: Seq<PlanModel>,
    alignment: nat,
    version: u32,
) -> StreamModel {
    StreamModel {
        plans,
        alignment,
        next: 0,
        total: writer::padded_header(kv, plans, alignment, version).len(),
        stopped: false,
    }
}

/// The tensor whose data are asked for: the next one, none behind the last one and none once data
/// had a wrong length.
pub open spec fn asks_for(m: StreamModel) -> Option<nat> {
    if m.stopped || m.next >= m.plans.len() {
        None
    } else {
        Some(m.next)
    }
}

/// The data have the length that the header of the tensor states.
pub open spec fn right_length(m: StreamModel, data: Seq<u8>) -> bool {
    data.len() == m.plans[m.next as int].nbytes
}

/// What is written of the data that were asked for: they and their padding, or nothing where they
/// have a wrong length.
pub open spec fn written_of(m: StreamModel, data: Seq<u8>) -> Seq<u8> {
    if right_length(m, data) {
        writer::padded(data, m.alignment)
    } else {
        Seq::empty()
    }
}

/// The file behind the data that were asked for.
pub open spec fn behind(m: StreamModel, data: Seq<u8>) -> StreamModel {
    if right_length(m, data) {
        StreamModel {
            next: m.next + 1,
            total: m.total + writer::padded(data, m.alignment).len(),
            ..m
        }
    } else {
        StreamModel { stopped: true, ..m }
    }
}

impl GgufStream {
    /// The bytes that are still to come can be counted in 64 bits.
    pub open spec fn wf(self) -> bool {
        &&& self.next <= self.plans@.len()
        &&& self.total + writer::body_len(self@.plans, self@.alignment) - writer::offset_of(
            self@.plans,
            self@.alignment,
            self.next as int,
        ) <= u64::MAX
    }

    /// Begins a file: what is to be written first, and what comes then. Nothing where the bytes of
    /// the file cannot be counted in 64 bits.
    pub fn start(
        kv: &[(String, GgufValue)],
        plans: Vec<TensorPlan>,
        alignment: u64,
        version: u32,
    ) -> (r: Option<(Vec<u8>, GgufStream)>)
        requires
            geometry::aligned(
                writer::header(
                    reader::kv_model(kv@),
                    writer::plans_model(plans@),
                    alignment as nat,
                    version,
                ).len(),
                alignment as nat,
            ) <= u64::MAX,
        ensures
            ({
                let model = reader::kv_model(kv@);
                let ps = writer::plans_model(plans@);
                let head = writer::padded_header(model, ps, alignment as nat, version);
                if head.len() + writer::body_len(ps, alignment as nat) > u64::MAX {
                    r is None
                } else {
                    &&& r matches Some((h, s))
                    &&& h@ == head
                    &&& s@ == begun(model, ps, alignment as nat, version)
                    &&& s.wf()
                }
            }),
    {
        let ghost ps = writer::plans_model(plans@);
        proof {
            geometry::lemma_aligned(
                writer::header(reader::kv_model(kv@), ps, alignment as nat, version).len(),
                alignment as nat,
            );
        }
        let body: u64 = match data_len(plans.as_slice(), alignment) {
            Some(n) => n,
            None => return None,
        };
        let head = stream_header(kv, plans.as_slice(), alignment, version);
        let total: u64 = head.len() as u64;
        if body > u64::MAX - total {
            return None;
        }
        Some((head, GgufStream { plans, alignment, next: 0, total, stopped: false }))
    }

    /// The tensor whose data are to be handed over next.
    pub fn wanted(&self) -> (r: Option<usize>)
        ensures
            match asks_for(self@) {
                Some(i) => r matches Some(x) && x == i,
                None => r is None,
            },
    {
        if self.stopped || self.next >= self.plans.len() {
            None
        } else {
            Some(self.next)
        }
    }

    /// Takes the data that were asked for: what is to be written of them, or an error where they
    /// have another length than the header states, behind which nothing is asked for.
    pub fn provide(&mut self, data: Vec<u8>) -> (r: Result<Vec<u8>, WrongLength>)
        requires
            old(self).wf(),
            asks_for(old(self)@) is Some,
        ensures
            final(self).wf(),
            final(self)@ == behind(old(self)@, data@),
            match r {
                Ok(out) => right_length(old(self)@, data@) && out@ == written_of(
                    old(self)@,
                    data@,
                ),
                Err(e) => !right_length(old(self)@, data@) && e.provided == data@.len() && e.stated
                    == old(self)@.plans[old(self)@.next as int].nbytes,
            },
    {
        let ghost ps = self@.plans;
        let ghost a = self@.alignment;
        let i: usize = self.next;
        let n: usize = self.plans.len();
        assert(i < n);
        assert(ps[i as int] == self.plans@[i as int]@);
        proof {
            writer::lemma_offsets_grow(ps, a, i + 1, ps.len() as int);
            geometry::lemma_aligned(ps[i as int].nbytes, a);
        }
        let padding: u64 = match padding_after(&self.plans[i], data.len() as u64, self.alignment) {
            Ok(n) => n,
            Err(e) => {
                self.stopped = true;
                return Err(e);
            },
        };
        let mut out = data;
        self.next = i + 1;
        self.total = self.total + (out.len() as u64 + padding);
        push_zeros(&mut out, padding);
        Ok(out)
    }
}

/// What a file has become, and the bytes that were written, where data were handed over `k` times:
/// those of `datas` in their order, for as long as any were asked for.
pub open spec fn run(
    kv: Seq<(Seq<char>, ValueModel)>,
    plans: Seq<PlanModel>,
    datas: Seq<Seq<u8>>,
    alignment: nat,
    version: u32,
    k: nat,
) -> (StreamModel, Seq<u8>)
    decreases k,
{
    if k == 0 {
        (
            begun(kv, plans, alignment, version),
            writer::padded_header(kv, plans, alignment, version),
        )
    } else {
        let (m, written) = run(kv, plans, datas, alignment, version, (k - 1) as nat);
        match asks_for(m) {
            Some(i) => (behind(m, datas[i as int]), written + written_of(m, datas[i as int])),
            None => (m, written),
        }
    }
}

/// The first `k` data have the lengths that the headers state.
pub open spec fn lengths_right(plans: Seq<PlanModel>, datas: Seq<Seq<u8>>, k: int) -> bool {
    forall|j: int| 0 <= j < k ==> (#[trigger] datas[j]).len() == plans[j].nbytes
}

/// The data of the tensors are asked for in their order, each once, and while their lengths are
/// right what is written is the file with the data so far. With the last tensor it is the whole
/// file, the number of its bytes is counted, and nothing more is asked for.
pub proof fn law_stream_writes_the_file(
    kv: Seq<(Seq<char>, ValueModel)>,
    plans: Seq<PlanModel>,
    datas: Seq<Seq<u8>>,
    alignment: nat,
    version: u32,
    k: nat,
)
    requires
        plans.len() == datas.len(),
        k <= plans.len(),
        lengths_right(plans, datas, k as int),
    ensures
        ({
            let (m, written) = run(kv, plans, datas, alignment, version, k);
            &&& m.plans == plans && m.alignment == alignment && m.next == k && !m.stopped
            &&& asks_for(m) == if k < plans.len() {
                Some(k)
            } else {
                None
            }
            &&& written == writer::file_bytes(
                kv,
                plans,
                datas.subrange(0, k as int),
                alignment,
                version,
            )
            &&& m.total == written.len()
            &&& k == plans.len() ==> written == writer::file_bytes(
                kv,
                plans,
                datas,
                alignment,
                version,
            )
        }),
    decreases k,
{
    assert(datas.subrange(0, datas.len() as int) =~= datas);
    let h = writer::padded_header(kv, plans, alignment, version);
    if k == 0 {
        assert(datas.subrange(0, 0) =~= Seq::empty());
        assert(h + Seq::<u8>::empty() =~= h);
    } else {
        law_stream_writes_the_file(kv, plans, datas, alignment, version, (k - 1) as nat);
        assert(datas[k - 1].len() == plans[k - 1].nbytes);
        laws::law_streamed_file_is_the_file(kv, plans, datas, alignment, version, k - 1);
    }
}

/// Streaming writes what the writer writes: where the data of the tensors of `w` are handed over one
/// after the other, the bytes written are those of `w`, their number is counted, and nothing more is
/// asked for.
pub proof fn law_streaming_is_writing(w: GgufWriter)
    ensures
        ({
            let (m, written) = run(
                reader::kv_model(w.kv@),
                writer::specs_plans(w.tensors@),
                writer::specs_data(w.tensors@),
                w.alignment as nat,
                w.version,
                w.tensors@.len(),
            );
            &&& written == w.bytes()
            &&& m.total == w.bytes().len()
            &&& m.next == w.tensors@.len() && !m.stopped
            &&& asks_for(m) is None
        }),
{
    let plans = writer::specs_plans(w.tensors@);
    let datas = writer::specs_data(w.tensors@);
    law_stream_writes_the_file(
        reader::kv_model(w.kv@),
        plans,
        datas,
        w.alignment as nat,
        w.version,
        w.tensors@.len(),
    );
}

/// Where the data of a tensor are the first of a wrong length, the file stops there: what is written
/// is the file up to that tensor, and however long one goes on, nothing is asked for or written any
/// more.
pub proof fn law_stream_stops_at_a_wrong_length(
    kv: Seq<(Seq<char>, ValueModel)>,
    plans: Seq<PlanModel>,
    datas: Seq<Seq<u8>>,
    alignment: nat,
    version: u32,
    i: nat,
    k: nat,
)
    requires
        plans.len() == datas.len(),
        i < plans.len(),
        lengths_right(plans, datas, i as int),
        datas[i as int].len() != plans[i as int].nbytes,
        i < k,
    ensures
        ({
            let (m, written) = run(kv, plans, datas, alignment, version, k);
            &&& m.stopped && m.next == i
            &&& asks_for(m) is None
            &&& written == writer::file_bytes(
                kv,
                plans,
                datas.subrange(0, i as int),
                alignment,
                version,
            )
        }),
    decreases k,
{
    if k == i + 1 {
        law_stream_writes_the_file(kv, plans, datas, alignment, version, i);
        let (m, written) = run(kv, plans, datas, alignment, version, i);
        assert(written + Seq::<u8>::empty() =~= written);
    } else {
        law_stream_stops_at_a_wrong_length(
            kv,
            plans,
            datas,
            alignment,
            version,
            i,
            (k - 1) as nat,
        );
    }
}

} // verus!
