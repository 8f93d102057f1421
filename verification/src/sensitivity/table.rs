//! The table of scores, which a search uses.
use vstd::prelude::*;
use crate::gguf::geometry;
use crate::gguf::geometry::ggml_type_name;
use crate::order;
use crate::order::stable_order;
use crate::sensitivity::candidates::Candidate;
use crate::sensitivity::Grouping;
use crate::text;

verus! {

/// The form of table that is read and written.
pub const SENSITIVITY_SCHEMA: u32 = 1;

/// What scoring a candidate gave, each number by its double-precision bits.
#[derive(Debug, Clone, Copy, PartialEq, Eq, Structural)]
pub struct CandidateScore {
    pub kl: u64,
    pub kl_p99: u64,
    pub top1_agreement: u64,
    pub ppl: Option<u64>,
}

/// One precision of a group. Fractions are held by their double-precision bits.
#[derive(Debug)]
pub struct SensitivityPoint {
    pub bits: String,
    pub ggml_type: u32,
    pub type_label: String,
    /// The bytes of the group at this precision.
    pub bytes: u64,
    pub kl: u64,
    pub kl_p99: Option<u64>,
    pub top1_agreement: Option<u64>,
    pub ppl: Option<u64>,
}

/// What a [`SensitivityPoint`] stands for.
pub struct PointModel {
    pub bits: Seq<char>,
    pub ggml_type: u32,
    pub type_label: Seq<char>,
    pub bytes: u64,
    pub kl: u64,
    pub kl_p99: Option<u64>,
    pub top1_agreement: Option<u64>,
    pub ppl: Option<u64>,
}

impl View for SensitivityPoint {
    type V = PointModel;

    open spec fn view(&self) -> PointModel {
        PointModel {
            bits: self.bits@,
            ggml_type: self.ggml_type,
            type_label: self.type_label@,
            bytes: self.bytes,
            kl: self.kl,
            kl_p99: self.kl_p99,
            top1_agreement: self.top1_agreement,
            ppl: self.ppl,
        }
    }
}

/// What is known of a group before it is scored. The depth is held by its single-precision bits.
#[derive(Debug)]
pub struct GroupInfo {
    pub key: String,
    pub role: String,
    pub depth: u32,
    pub members: Vec<String>,
    pub source_bytes: u64,
}

/// The candidates of a plan, with all that is needed to score them.
#[derive(Debug)]
pub struct CandidateManifest {
    pub source: String,
    pub corpus: String,
    pub grouping: Grouping,
    pub groups: Vec<GroupInfo>,
    pub candidates: Vec<Candidate>,
}

/// A group with its scores.
#[derive(Debug)]
pub struct SensitivityEntry {
    pub key: String,
    pub role: String,
    pub depth: u32,
    pub members: Vec<String>,
    pub source_bytes: u64,
    pub points: Vec<SensitivityPoint>,
}

/// The table of scores.
#[derive(Debug)]
pub struct SensitivityTable {
    pub schema: u32,
    pub source: String,
    pub corpus: String,
    pub evaluator: String,
    pub grouping: Grouping,
    pub reference_ppl: Option<u64>,
    pub entries: Vec<SensitivityEntry>,
}

/// A table of another form.
#[derive(Debug, Clone, Copy, PartialEq, Eq, Structural)]
pub struct StaleTable {
    pub schema: u32,
}

/// The place of the first entry with this key.
pub open spec fn keyed(entries: Seq<SensitivityEntry>, key: Seq<char>, i: int) -> bool {
    &&& 0 <= i < entries.len()
    &&& entries[i].key@ == key
    &&& forall|j: int| 0 <= j < i ==> (#[trigger] entries[j]).key@ != key
}

/// An entry has a tensor of this name.
pub open spec fn has_member(e: SensitivityEntry, name: Seq<char>) -> bool {
    text::text_models(e.members@).contains(name)
}

/// The place of the first entry that has a tensor of this name.
pub open spec fn holding(entries: Seq<SensitivityEntry>, name: Seq<char>, i: int) -> bool {
    &&& 0 <= i < entries.len()
    &&& has_member(entries[i], name)
    &&& forall|j: int| 0 <= j < i ==> !has_member(#[trigger] entries[j], name)
}

/// No entry has this key.
pub open spec fn not_keyed(entries: Seq<SensitivityEntry>, key: Seq<char>) -> bool {
    forall|j: int| 0 <= j < entries.len() ==> (#[trigger] entries[j]).key@ != key
}

/// No entry has a tensor of this name.
pub open spec fn not_held(entries: Seq<SensitivityEntry>, name: Seq<char>) -> bool {
    forall|j: int| 0 <= j < entries.len() ==> !has_member(#[trigger] entries[j], name)
}

/// The entry of a tensor: the first under its name, else the first that has it among its tensors,
/// else the first under its role.
pub open spec fn looked_up(
    entries: Seq<SensitivityEntry>,
    name: Seq<char>,
    role: Seq<char>,
    r: Option<int>,
) -> bool {
    match r {
        Some(i) => {
            ||| keyed(entries, name, i)
            ||| not_keyed(entries, name) && holding(entries, name, i)
            ||| not_keyed(entries, name) && not_held(entries, name) && keyed(entries, role, i)
        },
        None => not_keyed(entries, name) && not_held(entries, name) && not_keyed(entries, role),
    }
}

impl SensitivityTable {
    /// The place of the first entry with this key.
    fn find_key(&self, key: &str) -> (r: Option<usize>)
        ensures
            match r {
                Some(i) => keyed(self.entries@, key@, i as int),
                None => not_keyed(self.entries@, key@),
            },
    {
        let n: usize = self.entries.len();
        let mut i: usize = 0;
        while i < n
            invariant
                i <= n == self.entries@.len(),
                forall|j: int| 0 <= j < i ==> (#[trigger] self.entries@[j]).key@ != key@,
            decreases n - i,
        {
            if text::same(self.entries[i].key.as_str(), key) {
                return Some(i);
            }
            i = i + 1;
        }
        None
    }

    /// The place of the first entry that has a tensor of this name.
    fn find_member(&self, name: &str) -> (r: Option<usize>)
        ensures
            match r {
                Some(i) => holding(self.entries@, name@, i as int),
                None => not_held(self.entries@, name@),
            },
    {
        let n: usize = self.entries.len();
        let mut i: usize = 0;
        while i < n
            invariant
                i <= n == self.entries@.len(),
                forall|j: int| 0 <= j < i ==> !has_member(#[trigger] self.entries@[j], name@),
            decreases n - i,
        {
            if holds_name(self.entries[i].members.as_slice(), name) {
                return Some(i);
            }
            i = i + 1;
        }
        None
    }

    /// The entry of a tensor with this name and role. A table by role answers for every tensor of
    /// the role.
    pub fn lookup(&self, tensor_name: &str, role: &str) -> (r: Option<&SensitivityEntry>)
        ensures
            match r {
                Some(e) => exists|i: int|
                    0 <= i < self.entries@.len() && *e == self.entries@[i] && #[trigger] looked_up(
                        self.entries@,
                        tensor_name@,
                        role@,
                        Some(i),
                    ),
                None => looked_up(self.entries@, tensor_name@, role@, None),
            },
    {
        match self.find_key(tensor_name) {
            Some(i) => {
                assert(looked_up(self.entries@, tensor_name@, role@, Some(i as int)));
                return Some(&self.entries[i]);
            },
            None => {},
        }
        match self.find_member(tensor_name) {
            Some(i) => {
                assert(looked_up(self.entries@, tensor_name@, role@, Some(i as int)));
                return Some(&self.entries[i]);
            },
            None => {},
        }
        match self.find_key(role) {
            Some(i) => {
                assert(looked_up(self.entries@, tensor_name@, role@, Some(i as int)));
                Some(&self.entries[i])
            },
            None => None,
        }
    }

    /// The table, where it has the form that is read.
    pub fn accept(self) -> (r: Result<SensitivityTable, StaleTable>)
        ensures
            self.schema == SENSITIVITY_SCHEMA ==> r == Ok::<SensitivityTable, StaleTable>(self),
            self.schema != SENSITIVITY_SCHEMA ==> r == Err::<SensitivityTable, StaleTable>(
                (StaleTable { schema: self.schema }),
            ),
    {
        if self.schema == SENSITIVITY_SCHEMA {
            Ok(self)
        } else {
            Err(StaleTable { schema: self.schema })
        }
    }
}

/// Whether a name is in a list.
fn holds_name(list: &[String], name: &str) -> (r: bool)
    ensures
        r == text::text_models(list@).contains(name@),
{
    let n: usize = list.len();
    let mut i: usize = 0;
    while i < n
        invariant
            i <= n == list@.len(),
            forall|j: int| 0 <= j < i ==> (#[trigger] list@[j])@ != name@,
        decreases n - i,
    {
        if text::same(list[i].as_str(), name) {
            assert(text::text_models(list@)[i as int] == name@);
            return true;
        }
        i = i + 1;
    }
    proof {
        if text::text_models(list@).contains(name@) {
            let j = choose|j: int| 0 <= j < list@.len() && text::text_models(list@)[j] == name@;
            assert(list@[j]@ != name@);
        }
    }
    false
}

/// The point of a candidate with its score.
pub open spec fn point_of(c: Candidate, s: CandidateScore) -> PointModel {
    PointModel {
        bits: c.bits@,
        ggml_type: c.ggml_type,
        type_label: geometry::name_of(c.ggml_type),
        bytes: c.group_bytes,
        kl: s.kl,
        kl_p99: Some(s.kl_p99),
        top1_agreement: Some(s.top1_agreement),
        ppl: s.ppl,
    }
}

/// The places of the first `n` candidates of a group.
pub open spec fn candidates_of(candidates: Seq<Candidate>, key: Seq<char>, n: int) -> Seq<int>
    decreases n,
{
    if n <= 0 {
        Seq::empty()
    } else if candidates[n - 1].group@ == key {
        candidates_of(candidates, key, n - 1).push(n - 1)
    } else {
        candidates_of(candidates, key, n - 1)
    }
}

/// The sizes of these candidates.
pub open spec fn sizes_at(candidates: Seq<Candidate>, places: Seq<int>) -> Seq<u64> {
    Seq::new(places.len(), |i: int| candidates[places[i]].group_bytes)
}

/// The points of a group from the smallest to the greatest, those of one size in the order of the
/// candidates.
pub open spec fn are_points(
    candidates: Seq<Candidate>,
    scores: Seq<CandidateScore>,
    key: Seq<char>,
    v: Seq<SensitivityPoint>,
) -> bool {
    let places = candidates_of(candidates, key, candidates.len() as int);
    exists|o: Seq<usize>|
        {
            &&& #[trigger] order::is_stable_order(sizes_at(candidates, places), o)
            &&& v.len() == places.len()
            &&& forall|i: int|
                0 <= i < v.len() ==> (#[trigger] v[i])@ == point_of(
                    candidates[places[o[i] as int]],
                    scores[places[o[i] as int]],
                )
        }
}

/// A group that comes for the second time.
pub open spec fn came_before(groups: Seq<GroupInfo>, i: int) -> bool {
    exists|j: int| 0 <= j < i && (#[trigger] groups[j]).key@ == groups[i].key@
}

/// The entries of groups with the scores of their candidates.
pub open spec fn are_entries(
    groups: Seq<GroupInfo>,
    candidates: Seq<Candidate>,
    scores: Seq<CandidateScore>,
    v: Seq<SensitivityEntry>,
) -> bool {
    &&& v.len() == groups.len()
    &&& forall|i: int|
        0 <= i < v.len() ==> {
            let e = #[trigger] v[i];
            let g = groups[i];
            &&& e.key@ == g.key@
            &&& e.role@ == g.role@
            &&& e.depth == g.depth
            &&& text::text_models(e.members@) == text::text_models(g.members@)
            &&& e.source_bytes == g.source_bytes
            &&& if came_before(groups, i) {
                e.points@.len() == 0
            } else {
                are_points(candidates, scores, g.key@, e.points@)
            }
        }
}

/// The points of a group.
fn points_of(candidates: &[Candidate], scores: &[CandidateScore], key: &str) -> (r: Vec<
    SensitivityPoint,
>)
    requires
        candidates@.len() == scores@.len(),
    ensures
        are_points(candidates@, scores@, key@, r@),
{
    let n: usize = candidates.len();
    let mut places: Vec<usize> = Vec::new();
    let mut sizes: Vec<u64> = Vec::new();
    let mut i: usize = 0;
    while i < n
        invariant
            i <= n == candidates@.len(),
            places@.len() == sizes@.len() == candidates_of(candidates@, key@, i as int).len(),
            forall|j: int|
                0 <= j < places@.len() ==> #[trigger] places@[j] == candidates_of(
                    candidates@,
                    key@,
                    i as int,
                )[j] && places@[j] < n && sizes@[j] == candidates@[places@[j] as int].group_bytes,
        decreases n - i,
    {
        if text::same(candidates[i].group.as_str(), key) {
            places.push(i);
            sizes.push(candidates[i].group_bytes);
        }
        i = i + 1;
    }
    let ghost all = candidates_of(candidates@, key@, n as int);
    proof {
        assert forall|j: int| 0 <= j < sizes@.len() implies sizes@[j] == #[trigger] sizes_at(
            candidates@,
            all,
        )[j] by {
            assert(places@[j] == all[j]);
        }
        assert(sizes@ =~= sizes_at(candidates@, all));
    }
    let o = stable_order(sizes.as_slice());
    let m: usize = o.len();
    let mut out: Vec<SensitivityPoint> = Vec::new();
    let mut k: usize = 0;
    while k < m
        invariant
            k <= m == o@.len() == places@.len() == all.len(),
            n == candidates@.len() == scores@.len(),
            order::is_stable_order(sizes_at(candidates@, all), o@),
            forall|j: int|
                0 <= j < places@.len() ==> #[trigger] places@[j] == all[j] && places@[j] < n,
            out@.len() == k,
            forall|i: int|
                0 <= i < k ==> (#[trigger] out@[i])@ == point_of(
                    candidates@[all[o@[i] as int]],
                    scores@[all[o@[i] as int]],
                ),
        decreases m - k,
    {
        assert(o@[k as int] < all.len());
        let at: usize = places[o[k]];
        let c = &candidates[at];
        let s = scores[at];
        out.push(
            SensitivityPoint {
                bits: c.bits.clone(),
                ggml_type: c.ggml_type,
                type_label: ggml_type_name(c.ggml_type),
                bytes: c.group_bytes,
                kl: s.kl,
                kl_p99: Some(s.kl_p99),
                top1_agreement: Some(s.top1_agreement),
                ppl: s.ppl,
            },
        );
        k = k + 1;
    }
    out
}

/// Copies of names.
fn copy_names(v: &[String]) -> (r: Vec<String>)
    ensures
        text::text_models(r@) == text::text_models(v@),
{
    let n: usize = v.len();
    let mut out: Vec<String> = Vec::new();
    let mut i: usize = 0;
    while i < n
        invariant
            i <= n == v@.len(),
            out@.len() == i,
            forall|j: int| 0 <= j < i ==> (#[trigger] out@[j])@ == v@[j]@,
        decreases n - i,
    {
        out.push(v[i].clone());
        i = i + 1;
    }
    assert(text::text_models(out@) =~= text::text_models(v@));
    out
}

/// The entries of groups with the scores of their candidates, one score for each candidate.
pub fn score_entries(groups: &[GroupInfo], candidates: &[Candidate], scores: &[CandidateScore]) -> (r:
    Vec<SensitivityEntry>)
    requires
        candidates@.len() == scores@.len(),
    ensures
        are_entries(groups@, candidates@, scores@, r@),
{
    let n: usize = groups.len();
    let mut out: Vec<SensitivityEntry> = Vec::new();
    let mut i: usize = 0;
    while i < n
        invariant
            i <= n == groups@.len(),
            candidates@.len() == scores@.len(),
            out@.len() == i,
            forall|k: int|
                0 <= k < i ==> {
                    let e = #[trigger] out@[k];
                    let g = groups@[k];
                    &&& e.key@ == g.key@
                    &&& e.role@ == g.role@
                    &&& e.depth == g.depth
                    &&& text::text_models(e.members@) == text::text_models(g.members@)
                    &&& e.source_bytes == g.source_bytes
                    &&& if came_before(groups@, k) {
                        e.points@.len() == 0
                    } else {
                        are_points(candidates@, scores@, g.key@, e.points@)
                    }
                },
        decreases n - i,
    {
        let g = &groups[i];
        let mut seen: bool = false;
        let mut j: usize = 0;
        while j < i
            invariant
                j <= i < groups@.len(),
                *g == groups@[i as int],
                seen <==> exists|k: int| 0 <= k < j && (#[trigger] groups@[k]).key@ == g.key@,
            decreases i - j,
        {
            if text::same(groups[j].key.as_str(), g.key.as_str()) {
                seen = true;
                assert(groups@[j as int].key@ == g.key@);
            }
            j = j + 1;
        }
        let points: Vec<SensitivityPoint> = if seen {
            Vec::new()
        } else {
            points_of(candidates, scores, g.key.as_str())
        };
        out.push(
            SensitivityEntry {
                key: g.key.clone(),
                role: g.role.clone(),
                depth: g.depth,
                members: copy_names(g.members.as_slice()),
                source_bytes: g.source_bytes,
                points,
            },
        );
        i = i + 1;
    }
    out
}

/// The points of an entry grow in size.
pub proof fn law_points_grow(
    groups: Seq<GroupInfo>,
    candidates: Seq<Candidate>,
    scores: Seq<CandidateScore>,
    v: Seq<SensitivityEntry>,
    i: int,
    a: int,
    b: int,
)
    requires
        are_entries(groups, candidates, scores, v),
        0 <= i < v.len(),
        0 <= a < b < v[i].points@.len(),
    ensures
        v[i].points@[a].bytes <= v[i].points@[b].bytes,
{
    let key = groups[i].key@;
    let places = candidates_of(candidates, key, candidates.len() as int);
    let p = v[i].points@;
    let o = choose|o: Seq<usize>|
        {
            &&& #[trigger] order::is_stable_order(sizes_at(candidates, places), o)
            &&& p.len() == places.len()
            &&& forall|i: int|
                0 <= i < p.len() ==> (#[trigger] p[i])@ == point_of(
                    candidates[places[o[i] as int]],
                    scores[places[o[i] as int]],
                )
        };
    let s = sizes_at(candidates, places);
    assert(s[o[a] as int] <= s[o[b] as int]);
    assert(p[a]@.bytes == s[o[a] as int]);
    assert(p[b]@.bytes == s[o[b] as int]);
}

/// A table by role answers for every tensor of a role that it has.
pub proof fn law_role_answers_for_its_tensors(
    entries: Seq<SensitivityEntry>,
    name: Seq<char>,
    role: Seq<char>,
    i: int,
)
    requires
        0 <= i < entries.len(),
        entries[i].key@ == role,
    ensures
        !looked_up(entries, name, role, None),
{
}

} // verus!
