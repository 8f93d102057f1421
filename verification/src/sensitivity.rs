//! Measuring how much each group of tensors matters: what is grouped, which candidates are
//! written, and the table of the scores.
use vstd::prelude::*;
use crate::ir::TensorTag;
use crate::text;

pub mod candidates;
pub mod groups;
pub mod laws;
pub mod options;
pub mod table;

verus! {

/// How tensors are put together.
#[derive(Debug, Clone, Copy, PartialEq, Eq, Structural)]
pub enum Grouping {
    /// Each tensor for itself.
    PerTensor,
    /// The tensors of a role.
    PerRole,
    /// The tensors of a role in one of so many equal parts of the depth.
    PerRoleDepth { buckets: usize },
}

/// How many parts of the depth there are: at least one.
pub open spec fn bucket_count(buckets: usize) -> usize {
    if buckets == 0 {
        1
    } else {
        buckets
    }
}

/// The part of the depth, where `scaled` is the depth times the number of parts, without its
/// fraction. The greatest depth belongs to the last part.
pub open spec fn bucket_index(buckets: usize, scaled: usize) -> usize {
    if scaled >= bucket_count(buckets) {
        (bucket_count(buckets) - 1) as usize
    } else {
        scaled
    }
}

/// The group of a tensor, where `scaled` is its depth times the number of parts, without its
/// fraction.
pub open spec fn group_key(grouping: Grouping, tag: TensorTag, scaled: usize, name: Seq<char>) -> Seq<
    char,
> {
    match grouping {
        Grouping::PerTensor => name,
        Grouping::PerRole => tag.role.label_of(),
        Grouping::PerRoleDepth { buckets } => tag.role.label_of() + "@d"@ + text::decimal(
            bucket_index(buckets, scaled) as nat,
        ) + "/"@ + text::decimal(bucket_count(buckets) as nat),
    }
}

impl Grouping {
    /// The group of a tensor, where `scaled` is its depth times the number of parts, without its
    /// fraction.
    pub fn key(&self, tag: &TensorTag, scaled: usize, name: &str) -> (r: String)
        ensures
            r@ == group_key(*self, *tag, scaled, name@),
    {
        match *self {
            Grouping::PerTensor => name.to_owned(),
            Grouping::PerRole => tag.role.label().to_owned(),
            Grouping::PerRoleDepth { buckets } => {
                let b: usize = if buckets == 0 {
                    1
                } else {
                    buckets
                };
                let i: usize = if scaled >= b {
                    b - 1
                } else {
                    scaled
                };
                let mut s: String = tag.role.label().to_owned();
                s.append("@d");
                text::push_decimal(&mut s, i as u64);
                s.append("/");
                text::push_decimal(&mut s, b as u64);
                s
            },
        }
    }
}

/// The part of the depth is one of the parts.
pub proof fn law_bucket_in_range(buckets: usize, scaled: usize)
    ensures
        bucket_index(buckets, scaled) < bucket_count(buckets),
{
}

/// A character that a name of a file keeps.
pub open spec fn keeps(c: char) -> bool {
    ('a' <= c <= 'z') || ('A' <= c <= 'Z') || ('0' <= c <= '9') || c == '.' || c == '_' || c == '-'
}

/// A text with an underscore in place of every character that a name of a file does not keep.
pub open spec fn sanitized(s: Seq<char>) -> Seq<char> {
    s.map_values(
        |c: char|
            if keeps(c) {
                c
            } else {
                '_'
            },
    )
}

/// A name of a file for a group.
pub fn sanitize(s: &str) -> (r: String)
    ensures
        r@ == sanitized(s@),
{
    let n: usize = s.unicode_len();
    let mut out = String::new();
    let mut i: usize = 0;
    assert(out@ =~= sanitized(s@).subrange(0, 0));
    while i < n
        invariant
            i <= n == s@.len(),
            out@ == sanitized(s@).subrange(0, i as int),
        decreases n - i,
    {
        let c = s.get_char(i);
        let kept: bool = ('a' <= c && c <= 'z') || ('A' <= c && c <= 'Z') || ('0' <= c && c <= '9')
            || c == '.' || c == '_' || c == '-';
        if kept {
            out.push(c);
        } else {
            out.push('_');
        }
        i = i + 1;
        assert(out@ =~= sanitized(s@).subrange(0, i as int));
    }
    assert(out@ =~= sanitized(s@));
    out
}

/// What is fit for a name of a file stays as it is.
pub proof fn law_sanitize_once(s: Seq<char>)
    ensures
        sanitized(sanitized(s)) == sanitized(s),
        forall|i: int| 0 <= i < s.len() ==> keeps(#[trigger] sanitized(s)[i]),
{
    assert(sanitized(sanitized(s)) =~= sanitized(s));
}

} // verus!
