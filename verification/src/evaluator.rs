//! What candidates are scored against, and with what.
//!
//! Candidates are scored by a program that runs the model, or by captures that another stack has
//! taken of them.
use vstd::prelude::*;
use crate::logits;
use crate::logits::{LogitError, LogitStore, StoreModel};
use crate::perplexity::PplResult;
use crate::text;

pub mod laws;

verus! {

/// What a reference model has been made into, once for all candidates. A perplexity is held as it
/// was reported.
#[derive(Debug)]
pub enum Reference {
    /// A base file of the scoring program.
    LlamaBase { path: String, ppl: Option<PplResult> },
    /// A capture.
    Logits { store: LogitStore, ppl: Option<PplResult> },
}

impl Reference {
    /// The perplexity of the reference, where it is known.
    pub fn reference_ppl(&self) -> (r: Option<&str>)
        ensures
            match (*self, r) {
                (Reference::LlamaBase { ppl: Some(p), .. }, Some(s)) => s@ == p.ppl@,
                (Reference::LlamaBase { ppl: None, .. }, None) => true,
                (Reference::Logits { ppl: Some(p), .. }, Some(s)) => s@ == p.ppl@,
                (Reference::Logits { ppl: None, .. }, None) => true,
                _ => false,
            },
    {
        match self {
            Reference::LlamaBase { ppl, .. } => match ppl {
                Some(p) => Some(p.ppl.as_str()),
                None => None,
            },
            Reference::Logits { ppl, .. } => match ppl {
                Some(p) => Some(p.ppl.as_str()),
                None => None,
            },
        }
    }

    /// The base file, where the reference is one.
    pub fn base(&self) -> (r: Option<&str>)
        ensures
            match *self {
                Reference::LlamaBase { path, .. } => r matches Some(s) && s@ == path@,
                Reference::Logits { .. } => r is None,
            },
    {
        match self {
            Reference::LlamaBase { path, .. } => Some(path.as_str()),
            Reference::Logits { .. } => None,
        }
    }

    /// The capture, where the reference is one.
    pub fn capture(&self) -> (r: Option<&LogitStore>)
        ensures
            match *self {
                Reference::LlamaBase { .. } => r is None,
                Reference::Logits { store, .. } => r == Some(&store),
            },
    {
        match self {
            Reference::LlamaBase { .. } => None,
            Reference::Logits { store, .. } => Some(store),
        }
    }
}

/// Scores candidates with a program that runs them.
#[derive(Debug)]
pub struct LlamaCppEvaluator {
    pub bin: String,
    /// Flags for every run.
    pub extra_args: Vec<String>,
    pub work_dir: String,
}

impl LlamaCppEvaluator {
    /// The scores come from the program `bin`, where one has been found.
    pub fn new(bin: Option<String>, work_dir: String) -> (r: Option<LlamaCppEvaluator>)
        ensures
            bin is None ==> r is None,
            bin matches Some(b) ==> (r matches Some(e) && e.bin@ == b@ && e.extra_args@.len() == 0
                && e.work_dir@ == work_dir@),
    {
        match bin {
            None => None,
            Some(b) => Some(LlamaCppEvaluator { bin: b, extra_args: Vec::new(), work_dir }),
        }
    }

    /// The same with these flags.
    pub fn with_args(self, args: Vec<String>) -> (r: LlamaCppEvaluator)
        ensures
            r == (LlamaCppEvaluator { extra_args: args, ..self }),
    {
        LlamaCppEvaluator { bin: self.bin, extra_args: args, work_dir: self.work_dir }
    }

    /// What these scores are called.
    pub fn name(&self) -> (r: &'static str)
        ensures
            r@ == "llama.cpp"@,
    {
        "llama.cpp"
    }

    /// The program can run a candidate that has just been written.
    pub fn scores_local_candidates(&self) -> (r: bool)
        ensures
            r,
    {
        true
    }
}

/// Scores candidates by the captures that have been taken of them.
#[derive(Debug)]
pub struct LogitDumpEvaluator {
    pub dir: String,
    pub reference_id: String,
    /// The vocabulary, where the captures are without a header.
    pub raw_vocab: Option<usize>,
}

impl LogitDumpEvaluator {
    /// The captures stand in `dir`, the one of the reference under `reference`.
    pub fn new(dir: String) -> (r: LogitDumpEvaluator)
        ensures
            r.dir@ == dir@,
            r.reference_id@ == "reference"@,
            r.raw_vocab is None,
    {
        LogitDumpEvaluator { dir, reference_id: "reference".to_owned(), raw_vocab: None }
    }

    /// The file with the capture `id`.
    pub fn file_of(&self, id: &str) -> (r: String)
        ensures
            r@ == id@ + (if self.raw_vocab is Some {
                ".f32"@
            } else {
                ".rqlg"@
            }),
    {
        let mut name: String = id.to_owned();
        match self.raw_vocab {
            Some(_) => name.append(".f32"),
            None => name.append(".rqlg"),
        }
        name
    }

    /// The id under which the capture of a candidate stands: the name of its file without the
    /// extension.
    pub fn id_of(file_name: &str) -> (r: &str)
        ensures
            r@ == stem(file_name@),
    {
        let n: usize = file_name.unicode_len();
        let mut i: usize = n;
        assert(file_name@.take(n as int) =~= file_name@);
        while i > 0
            invariant
                i <= n == file_name@.len(),
                last_stop(file_name@.take(i as int)) == last_stop(file_name@),
            decreases i,
        {
            let ghost here = file_name@.take(i as int);
            assert(here.drop_last() =~= file_name@.take(i - 1));
            if file_name.get_char(i - 1) == '.' {
                assert(last_stop(file_name@) == Some(i - 1));
                if i - 1 > 0 && !text::same(file_name, "..") {
                    let r = file_name.substring_char(0, i - 1);
                    assert(r@ =~= file_name@.take(i - 1));
                    return r;
                }
                return file_name;
            }
            i = i - 1;
        }
        file_name
    }

    /// The capture in the bytes of a file.
    pub fn load(&self, b: &[u8]) -> (r: Result<LogitStore, LogitError>)
        ensures
            ({
                let read = match self.raw_vocab {
                    Some(vocab) => logits::read_raw(b@, vocab),
                    None => logits::read_store(b@),
                };
                match r {
                    Ok(s) => read == Ok::<StoreModel, LogitError>(s@),
                    Err(e) => read == Err::<StoreModel, LogitError>(e),
                }
            }),
    {
        match self.raw_vocab {
            Some(vocab) => LogitStore::from_raw(b, vocab),
            None => LogitStore::from_bytes(b),
        }
    }

    /// What these scores are called.
    pub fn name(&self) -> (r: &'static str)
        ensures
            r@ == "logit-dump"@,
    {
        "logit-dump"
    }

    /// A candidate that has just been written has no capture yet.
    pub fn scores_local_candidates(&self) -> (r: bool)
        ensures
            !r,
    {
        false
    }
}

/// The place of the last full stop.
pub open spec fn last_stop(s: Seq<char>) -> Option<int>
    decreases s.len(),
{
    if s.len() == 0 {
        None
    } else if s.last() == '.' {
        Some(s.len() - 1)
    } else {
        last_stop(s.drop_last())
    }
}

/// The name of a file without its extension. A full stop at the start begins no extension.
pub open spec fn stem(name: Seq<char>) -> Seq<char> {
    match last_stop(name) {
        Some(p) => if p > 0 && name != ".."@ {
            name.take(p)
        } else {
            name
        },
        None => name,
    }
}

/// The capture of a candidate is looked for under the candidate's own id: a candidate is written
/// as its id and `.gguf`.
pub proof fn law_capture_has_the_candidates_id(id: Seq<char>)
    requires
        id.len() > 0,
    ensures
        stem(id + ".gguf"@) == id,
{
    let name = id + ".gguf"@;
    reveal_strlit(".gguf");
    reveal_strlit("..");
    let n = id.len() as int;
    let a = name.drop_last();
    let b = a.drop_last();
    let c = b.drop_last();
    let d = c.drop_last();
    assert(name.last() == 'f' && a.last() == 'u' && b.last() == 'g' && c.last() == 'g');
    assert(d.last() == '.');
    assert(last_stop(d) == Some(n));
    assert(last_stop(c) == Some(n));
    assert(last_stop(b) == Some(n));
    assert(last_stop(a) == Some(n));
    assert(last_stop(name) == Some(n));
    assert(name.len() != ".."@.len());
    assert(name.take(n) =~= id);
}

/// The text a model is scored over, where none is named.
pub const DEFAULT_CORPUS: &'static str = "wikitext-2-raw/wiki.train.raw";

/// The text a model is scored over.
pub fn corpus_of<'a>(calib: Option<&'a str>) -> (r: &'a str)
    ensures
        r@ == match calib {
            Some(c) => c@,
            None => DEFAULT_CORPUS@,
        },
{
    match calib {
        Some(c) => c,
        None => DEFAULT_CORPUS,
    }
}

} // verus!
