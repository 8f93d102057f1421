//! What scoring promises of its references and captures.
use vstd::prelude::*;
use crate::evaluator;
use crate::evaluator::{corpus_of, LlamaCppEvaluator, LogitDumpEvaluator, Reference};
use crate::logits::{LogitError, LogitStore};

verus! {

/// A capture stands under its id, with `.f32` behind it where it has no header and `.rqlg` where it
/// has one; the reference has an id of its own.
pub proof fn law_files_of_captures(
    dir: String,
    fresh: LogitDumpEvaluator,
    e: &LogitDumpEvaluator,
    id: &str,
    r: String,
)
    requires
        call_ensures(LogitDumpEvaluator::new, (dir,), fresh),
        call_ensures(LogitDumpEvaluator::file_of, (e, id), r),
    ensures
        fresh.dir@ == dir@ && fresh.reference_id@ == "reference"@ && fresh.raw_vocab is None,
        e.raw_vocab is Some ==> r@ == id@ + ".f32"@,
        e.raw_vocab is None ==> r@ == id@ + ".rqlg"@,
{
}

/// A text without a full stop in it.
pub open spec fn has_no_stop(s: Seq<char>) -> bool {
    forall|i: int| 0 <= i < s.len() ==> #[trigger] s[i] != '.'
}

/// The last full stop is found.
proof fn lemma_last_stop(front: Seq<char>, back: Seq<char>)
    requires
        has_no_stop(back),
    ensures
        evaluator::last_stop(front + seq!['.'] + back) == Some(front.len() as int),
    decreases back.len(),
{
    let s = front + seq!['.'] + back;
    if back.len() > 0 {
        let less = back.drop_last();
        assert forall|i: int| 0 <= i < less.len() implies #[trigger] less[i] != '.' by {
            assert(back[i] != '.');
        }
        lemma_last_stop(front, less);
        assert(s.drop_last() =~= front + seq!['.'] + less);
        assert(back[back.len() - 1] != '.');
        assert(s.last() == back.last());
    } else {
        assert(s.last() == '.');
    }
}

/// A text without a full stop has no last one.
proof fn lemma_no_stop(s: Seq<char>)
    requires
        has_no_stop(s),
    ensures
        evaluator::last_stop(s) is None,
    decreases s.len(),
{
    if s.len() > 0 {
        assert(s[s.len() - 1] != '.');
        assert forall|i: int| 0 <= i < s.drop_last().len() implies #[trigger] s.drop_last()[i]
            != '.' by {
            assert(s[i] != '.');
        }
        lemma_no_stop(s.drop_last());
    }
}

/// The id of a candidate is the name of its file up to the last full stop, whatever the extension;
/// without a full stop it is the whole name.
pub proof fn law_ids_of_files(
    name: &str,
    front: Seq<char>,
    extension: Seq<char>,
    r: &str,
)
    requires
        call_ensures(LogitDumpEvaluator::id_of, (name,), r),
        has_no_stop(extension),
        front.len() > 0,
        front != "."@,
    ensures
        name@ == front + seq!['.'] + extension ==> r@ == front,
        has_no_stop(name@) ==> r@ == name@,
{
    if name@ == front + seq!['.'] + extension {
        lemma_last_stop(front, extension);
        assert(name@.take(front.len() as int) =~= front);
        reveal_strlit("..");
        reveal_strlit(".");
        if name@ == ".."@ {
            assert(name@.len() == 2);
            assert(front =~= "."@) by {
                assert(front[0] == name@[0]);
            }
        }
    }
    if has_no_stop(name@) {
        lemma_no_stop(name@);
    }
}

/// A capture is read by its header where it has one, and by the vocabulary that is named where it
/// has none.
pub proof fn law_captures_are_read_by_their_kind(
    e: &LogitDumpEvaluator,
    b: &[u8],
    r: Result<LogitStore, LogitError>,
    with_header: Result<LogitStore, LogitError>,
    without: Result<LogitStore, LogitError>,
)
    requires
        call_ensures(LogitDumpEvaluator::load, (e, b), r),
        call_ensures(LogitStore::from_bytes, (b,), with_header),
        e.raw_vocab matches Some(v) ==> call_ensures(LogitStore::from_raw, (b, v), without),
    ensures
        e.raw_vocab is None ==> (r is Ok <==> with_header is Ok) && (r is Ok ==> r->Ok_0@
            == with_header->Ok_0@) && (r is Err ==> r->Err_0 == with_header->Err_0),
        e.raw_vocab is Some ==> (r is Ok <==> without is Ok) && (r is Ok ==> r->Ok_0@
            == without->Ok_0@) && (r is Err ==> r->Err_0 == without->Err_0),
{
}

/// Scores by a program need the program and can be had of candidates that have just been written;
/// scores by captures cannot.
pub proof fn law_who_scores_what(
    bin: Option<String>,
    dir: String,
    made: Option<LlamaCppEvaluator>,
    x: &LlamaCppEvaluator,
    xname: &'static str,
    xlocal: bool,
    y: &LogitDumpEvaluator,
    yname: &'static str,
    ylocal: bool,
)
    requires
        call_ensures(LlamaCppEvaluator::new, (bin, dir), made),
        call_ensures(LlamaCppEvaluator::name, (x,), xname),
        call_ensures(LlamaCppEvaluator::scores_local_candidates, (x,), xlocal),
        call_ensures(LogitDumpEvaluator::name, (y,), yname),
        call_ensures(LogitDumpEvaluator::scores_local_candidates, (y,), ylocal),
    ensures
        bin is Some <==> made is Some,
        made matches Some(e) ==> e.bin@ == bin->0@ && e.work_dir@ == dir@ && e.extra_args@.len() == 0,
        xname@ == "llama.cpp"@ && xlocal,
        yname@ == "logit-dump"@ && !ylocal,
{
}

/// Flags replace the flags of an evaluator and nothing else.
pub proof fn law_flags(e: LlamaCppEvaluator, args: Vec<String>, r: LlamaCppEvaluator)
    requires
        call_ensures(LlamaCppEvaluator::with_args, (e, args), r),
    ensures
        r.extra_args == args && r.bin == e.bin && r.work_dir == e.work_dir,
{
}

/// A reference is a base file or a capture and never both; it has the perplexity that was measured
/// with it.
pub proof fn law_references(
    x: &Reference,
    ppl: Option<&str>,
    base: Option<&str>,
    capture: Option<&LogitStore>,
)
    requires
        call_ensures(Reference::reference_ppl, (x,), ppl),
        call_ensures(Reference::base, (x,), base),
        call_ensures(Reference::capture, (x,), capture),
    ensures
        base is Some <==> capture is None,
        x matches Reference::LlamaBase { path, ppl: p } ==> base->0@ == path@ && (p is Some <==> ppl
            is Some) && (p matches Some(q) ==> ppl->0@ == q.ppl@),
        x matches Reference::Logits { store, ppl: p } ==> capture == Some(store) && (p is Some
            <==> ppl is Some) && (p matches Some(q) ==> ppl->0@ == q.ppl@),
{
}

/// A text that is named is the one that is scored over; otherwise it is a usual one.
pub proof fn law_corpus(calib: Option<&'static str>, r: &'static str)
    requires
        call_ensures(corpus_of, (calib,), r),
    ensures
        calib matches Some(c) ==> r@ == c@,
        calib is None ==> r@ == "wikitext-2-raw/wiki.train.raw"@,
{
}

} // verus!
