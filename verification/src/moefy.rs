//! Turning a dense checkpoint into one with routed experts.
//!
//! Every intermediate dimension of a dense feed-forward block goes to exactly one routed expert.
//! The result is a start for training: its router is random and its shared expert is zero.
use vstd::prelude::*;
use crate::text;

pub mod config;
pub mod laws;
pub mod layers;
pub mod payload;
pub mod plan;
pub mod promises;
pub mod run;

verus! {

/// What to convert, where to, and how.
#[derive(Debug)]
pub struct MoefyOptions {
    pub input_dir: String,
    pub output_dir: String,
    pub experts: usize,
    pub top_k: usize,
    pub max_shard_size: String,
    pub dry_run: bool,
}

/// A size that cannot be read.
#[derive(Debug, Clone, Copy, PartialEq, Eq, Structural)]
pub enum SizeError {
    /// Nothing but white space.
    Empty,
    /// No number of 64 bits at the start.
    NoNumber,
    /// A unit other than B, K, M and G.
    UnknownSuffix,
    /// The size does not fit in 64 bits.
    Overflow,
}

/// Options that do not go together.
#[derive(Debug, Clone, Copy, PartialEq, Eq, Structural)]
pub enum OptionsError {
    TooFewExperts,
    /// More experts per token than experts, or none.
    TopKOutOfRange,
    ShardSize(SizeError),
    ZeroShardSize,
}

/// The factor of a unit, whose letters are in upper case.
pub open spec fn unit_factor(suffix: Seq<char>) -> Option<u64> {
    if suffix == ""@ || suffix == "B"@ {
        Some(1)
    } else if suffix == "K"@ || suffix == "KB"@ || suffix == "KIB"@ {
        Some(0x400)
    } else if suffix == "M"@ || suffix == "MB"@ || suffix == "MIB"@ {
        Some(0x10_0000)
    } else if suffix == "G"@ || suffix == "GB"@ || suffix == "GIB"@ {
        Some(0x4000_0000)
    } else {
        None
    }
}

/// The number of bytes that a text states: digits, then a unit in either case, with white space
/// around both.
pub open spec fn size_of(s: Seq<char>) -> Result<u64, SizeError> {
    let t = text::trimmed(s);
    let n = text::leading_digits(t);
    if t.len() == 0 {
        Err(SizeError::Empty)
    } else {
        match text::parsed_up_to(t.subrange(0, n), u64::MAX as nat) {
            None => Err(SizeError::NoNumber),
            Some(v) => match unit_factor(text::uppercase(text::trimmed(text::after(t, n)))) {
                None => Err(SizeError::UnknownSuffix),
                Some(f) => if v * f > u64::MAX {
                    Err(SizeError::Overflow)
                } else {
                    Ok((v * f) as u64)
                },
            },
        }
    }
}

/// The factor of a unit.
fn factor_of(suffix: &str) -> (r: Option<u64>)
    ensures
        r == unit_factor(suffix@),
{
    if text::same(suffix, "") || text::same(suffix, "B") {
        Some(1)
    } else if text::same(suffix, "K") || text::same(suffix, "KB") || text::same(suffix, "KIB") {
        Some(0x400)
    } else if text::same(suffix, "M") || text::same(suffix, "MB") || text::same(suffix, "MIB") {
        Some(0x10_0000)
    } else if text::same(suffix, "G") || text::same(suffix, "GB") || text::same(suffix, "GIB") {
        Some(0x4000_0000)
    } else {
        None
    }
}

/// The number of bytes that a text states.
pub fn parse_size(s: &str) -> (r: Result<u64, SizeError>)
    ensures
        r == size_of(s@),
{
    let t = text::trim(s);
    let len: usize = t.unicode_len();
    if len == 0 {
        return Err(SizeError::Empty);
    }
    let n: usize = text::count_digits(t);
    let value: u64 = match text::parse_up_to(t.substring_char(0, n), u64::MAX) {
        Some(v) => v,
        None => return Err(SizeError::NoNumber),
    };
    let suffix = text::to_uppercase(text::trim(t.substring_char(n, len)));
    let factor: u64 = match factor_of(suffix.as_str()) {
        Some(f) => f,
        None => return Err(SizeError::UnknownSuffix),
    };
    match value.checked_mul(factor) {
        Some(v) => Ok(v),
        None => Err(SizeError::Overflow),
    }
}

/// What is wrong with the options, or the size of a shard that they state.
pub open spec fn options_checked(o: MoefyOptions) -> Result<u64, OptionsError> {
    if o.experts < 2 {
        Err(OptionsError::TooFewExperts)
    } else if o.top_k == 0 || o.top_k > o.experts {
        Err(OptionsError::TopKOutOfRange)
    } else {
        match size_of(o.max_shard_size@) {
            Err(e) => Err(OptionsError::ShardSize(e)),
            Ok(n) => if n == 0 {
                Err(OptionsError::ZeroShardSize)
            } else {
                Ok(n)
            },
        }
    }
}

/// Checks the options and reads the size of a shard.
pub fn check_options(o: &MoefyOptions) -> (r: Result<u64, OptionsError>)
    ensures
        r == options_checked(*o),
{
    if o.experts < 2 {
        return Err(OptionsError::TooFewExperts);
    }
    if o.top_k == 0 || o.top_k > o.experts {
        return Err(OptionsError::TopKOutOfRange);
    }
    match parse_size(o.max_shard_size.as_str()) {
        Err(e) => Err(OptionsError::ShardSize(e)),
        Ok(n) => if n == 0 {
            Err(OptionsError::ZeroShardSize)
        } else {
            Ok(n)
        },
    }
}

} // verus!
